//! Object records and the synthetic directories that group them.

use crate::text::{distinct, first_index, has_item, lemma_first_index, lemma_first_index_unique, lemma_has_item};
use vstd::prelude::*;

verus! {

/// An instant in UTC: whole seconds since the Unix epoch and the nanoseconds
/// beyond them.
#[derive(Clone, Copy, Debug, PartialEq, Eq, Structural)]
pub struct Timestamp {
    pub secs: i64,
    pub subsec_nanos: u32,
}

impl Timestamp {
    /// Nanoseconds since the Unix epoch; instants are ordered by this number.
    pub open spec fn as_nanos(self) -> int {
        self.secs * 1_000_000_000 + self.subsec_nanos
    }

    /// Whether `self` lies strictly after `other`.
    pub open spec fn after(self, other: Timestamp) -> bool {
        self.as_nanos() > other.as_nanos()
    }

    pub fn new(secs: i64, subsec_nanos: u32) -> (t: Timestamp)
        ensures
            t == (Timestamp { secs, subsec_nanos }),
    {
        Timestamp { secs, subsec_nanos }
    }

    /// Whether `self` lies strictly after `other`.
    pub fn is_after(&self, other: &Timestamp) -> (r: bool)
        ensures
            r == self.after(*other),
    {
        let a: i128 = (self.secs as i128) * 1_000_000_000 + (self.subsec_nanos as i128);
        let b: i128 = (other.secs as i128) * 1_000_000_000 + (other.subsec_nanos as i128);
        a > b
    }
}

/// One object of the store as a listing reports it.
#[derive(Clone, Debug)]
pub struct S3File {
    pub last_modified: Timestamp,
    pub size: u64,
    pub key: String,
}

/// What an object record stands for.
pub struct FileModel {
    pub key: Seq<char>,
    pub size: nat,
    pub last_modified: Timestamp,
}

impl View for S3File {
    type V = FileModel;

    open spec fn view(&self) -> FileModel {
        FileModel { key: self.key@, size: self.size as nat, last_modified: self.last_modified }
    }
}

impl S3File {
    pub fn new(key: String, size: u64, last_modified: Timestamp) -> (f: S3File)
        ensures
            f@ == (FileModel { key: key@, size: size as nat, last_modified }),
    {
        S3File { last_modified, size, key }
    }

    /// A copy of this record.
    pub fn duplicate(&self) -> (f: S3File)
        ensures
            f@ == self@,
    {
        S3File { last_modified: self.last_modified, size: self.size, key: self.key.clone() }
    }

    /// The modification time as a timestamp such as `2023-02-13T12:59:51Z`;
    /// `None` where the calendar cannot hold it.
    pub fn utc_modified_at(&self) -> (r: Option<String>)
        ensures
            crate::text::text_of(r) == crate::rfc3339_utc(
                self.last_modified.secs,
                self.last_modified.subsec_nanos,
            ),
    {
        crate::utc_datetime(self.last_modified)
    }

    /// Moves the modification time forward to `last_modified` if that is later.
    pub fn set_newest(&mut self, last_modified: Timestamp)
        ensures
            final(self)@.key == old(self)@.key,
            final(self)@.size == old(self)@.size,
            final(self)@.last_modified == if last_modified.after(old(self)@.last_modified) {
                last_modified
            } else {
                old(self)@.last_modified
            },
    {
        if last_modified.is_after(&self.last_modified) {
            self.last_modified = last_modified;
        }
    }
}

/// The keys of a sequence of records, in order.
pub open spec fn file_keys(files: Seq<FileModel>) -> Seq<Seq<char>> {
    Seq::new(files.len(), |i: int| files[i].key)
}

/// The sum of the sizes of `files`.
pub open spec fn total_size(files: Seq<FileModel>) -> nat
    decreases files.len(),
{
    if files.len() == 0 {
        0
    } else {
        total_size(files.drop_last()) + files.last().size
    }
}

/// The latest modification time among `files`, the earliest record winning
/// among equals; `fallback` where there is no record.
pub open spec fn newest(files: Seq<FileModel>, fallback: Timestamp) -> Timestamp
    decreases files.len(),
{
    if files.len() == 0 {
        fallback
    } else if files.len() == 1 {
        files[0].last_modified
    } else {
        let before = newest(files.drop_last(), fallback);
        if files.last().last_modified.after(before) {
            files.last().last_modified
        } else {
            before
        }
    }
}

/// `files` with `file` put in: in the place of the record with the same key
/// where there is one, at the end otherwise.
pub open spec fn put_file(files: Seq<FileModel>, file: FileModel) -> Seq<FileModel> {
    let i = first_index(file_keys(files), file.key);
    if 0 <= i < files.len() {
        files.update(i, file)
    } else {
        files.push(file)
    }
}

/// Putting a record in keeps the keys distinct, and afterwards the record is
/// found under its key.
pub proof fn lemma_put_file(files: Seq<FileModel>, file: FileModel)
    requires
        distinct(file_keys(files)),
    ensures
        distinct(file_keys(put_file(files, file))),
        has_item(file_keys(put_file(files, file)), file.key),
        put_file(files, file)[first_index(file_keys(put_file(files, file)), file.key)] == file,
        forall|k: Seq<char>|
            k != file.key ==> (has_item(file_keys(put_file(files, file)), k) <==> has_item(
                file_keys(files),
                k,
            )),
{
    let keys = file_keys(files);
    let i = first_index(keys, file.key);
    lemma_first_index(keys, file.key);
    let after = put_file(files, file);
    let keys2 = file_keys(after);
    if 0 <= i < files.len() {
        assert(keys2 =~= keys);
    } else {
        assert(keys2 =~= keys.push(file.key));
        lemma_first_index_unique(keys2, file.key, files.len() as int);
    }
    lemma_first_index(keys2, file.key);
    assert forall|k: Seq<char>| k != file.key implies (has_item(keys2, k) <==> has_item(
        keys,
        k,
    )) by {
        lemma_has_item(keys2, k);
        lemma_has_item(keys, k);
        if keys.contains(k) {
            let j = choose|j: int| 0 <= j < keys.len() && keys[j] == k;
            assert(keys2[j] == k);
        }
        if keys2.contains(k) {
            let j = choose|j: int| 0 <= j < keys2.len() && keys2[j] == k;
            assert(keys[j] == k);
        }
    }
}

/// The newest time of a non-empty sequence is the time of one of its records
/// and no record is later.
pub proof fn lemma_newest(files: Seq<FileModel>, fallback: Timestamp)
    requires
        files.len() > 0,
    ensures
        exists|i: int| 0 <= i < files.len() && files[i].last_modified == newest(files, fallback),
        forall|i: int|
            0 <= i < files.len() ==> !(#[trigger] files[i]).last_modified.after(
                newest(files, fallback),
            ),
    decreases files.len(),
{
    if files.len() == 1 {
        assert(files[0].last_modified == newest(files, fallback));
    } else {
        let head = files.drop_last();
        lemma_newest(head, fallback);
        let before = newest(head, fallback);
        let w = choose|i: int| 0 <= i < head.len() && head[i].last_modified == before;
        assert(head[w] == files[w]);
        if files.last().last_modified.after(before) {
            assert(files[files.len() - 1].last_modified == newest(files, fallback));
        } else {
            assert(files[w].last_modified == newest(files, fallback));
        }
        assert forall|i: int| 0 <= i < files.len() implies !(#[trigger] files[i]).last_modified.after(
            newest(files, fallback),
        ) by {
            if i < head.len() {
                assert(head[i] == files[i]);
            }
        }
    }
}

/// What a synthetic directory stands for: its name and its records, in the
/// order in which their keys first came in.
pub struct DirectoryModel {
    pub name: Seq<char>,
    pub files: Seq<FileModel>,
}

impl DirectoryModel {
    /// No key occurs twice.
    pub open spec fn wf(self) -> bool {
        distinct(file_keys(self.files))
    }

    /// Whether a record with this key is held.
    pub open spec fn has_file(self, key: Seq<char>) -> bool {
        has_item(file_keys(self.files), key)
    }

    /// The directory with `file` put in.
    pub open spec fn with_file(self, file: FileModel) -> DirectoryModel {
        DirectoryModel { name: self.name, files: put_file(self.files, file) }
    }
}

/// A synthetic directory: the records that share a first path segment beyond
/// the listed prefix.
#[derive(Debug)]
pub struct S3Directory {
    name: String,
    contents: Vec<S3File>,
}

impl View for S3Directory {
    type V = DirectoryModel;

    closed spec fn view(&self) -> DirectoryModel {
        DirectoryModel {
            name: self.name@,
            files: Seq::new(self.contents@.len(), |i: int| self.contents@[i]@),
        }
    }
}

impl S3Directory {
    /// An empty directory of the given name.
    pub fn new(name: String) -> (d: S3Directory)
        ensures
            d@ == (DirectoryModel { name: name@, files: Seq::<FileModel>::empty() }),
            d@.wf(),
    {
        let d = S3Directory { name, contents: Vec::new() };
        assert(d@.files =~= Seq::<FileModel>::empty());
        d
    }

    /// The directory's name.
    pub fn name(&self) -> (n: &String)
        ensures
            n@ == self@.name,
    {
        &self.name
    }

    /// The records held, in the order in which their keys first came in.
    pub fn files(&self) -> (f: &Vec<S3File>)
        ensures
            f@.len() == self@.files.len(),
            forall|i: int| 0 <= i < f@.len() ==> (#[trigger] f@[i])@ == self@.files[i],
    {
        &self.contents
    }

    /// Position of the record with this key, or the number of records if
    /// there is none.
    fn find(&self, key: &String) -> (i: usize)
        ensures
            i == first_index(file_keys(self@.files), key@),
            i <= self.contents.len(),
    {
        let mut i: usize = 0;
        while i < self.contents.len() && !(self.contents[i].key == *key)
            invariant
                i <= self.contents.len(),
                forall|j: int| 0 <= j < i ==> file_keys(self@.files)[j] != key@,
            decreases self.contents.len() - i,
        {
            i = i + 1;
        }
        proof {
            lemma_first_index_unique(file_keys(self@.files), key@, i as int);
        }
        i
    }

    /// Puts `file` in, replacing the record that has the same key if there is one.
    pub fn add_file(&mut self, file: S3File)
        requires
            old(self)@.wf(),
        ensures
            final(self)@ == old(self)@.with_file(file@),
            final(self)@.wf(),
    {
        let i = self.find(&file.key);
        proof {
            lemma_put_file(self@.files, file@);
        }
        if i < self.contents.len() {
            self.contents[i] = file;
        } else {
            self.contents.push(file);
        }
        assert(self@.files =~= put_file(old(self)@.files, file@));
    }

    /// Whether a record with this key is held.
    pub fn file_exists(&self, key: &String) -> (r: bool)
        ensures
            r == self@.has_file(key@),
    {
        self.find(key) < self.contents.len()
    }

    /// The exact sum of the sizes of the records held; zero for an empty
    /// directory.
    pub fn size(&self) -> (total: u128)
        ensures
            total == total_size(self@.files),
            self@.files.len() == 0 ==> total == 0,
    {
        let mut total: u128 = 0;
        let mut i: usize = 0;
        while i < self.contents.len()
            invariant
                i <= self.contents.len(),
                total == total_size(self@.files.take(i as int)),
                total <= i * u64::MAX,
            decreases self.contents.len() - i,
        {
            assert(self@.files.take(i + 1).drop_last() == self@.files.take(i as int));
            assert(i * u64::MAX + u64::MAX == (i + 1) * u64::MAX) by (nonlinear_arith);
            assert((i + 1) * u64::MAX <= usize::MAX * u64::MAX) by (nonlinear_arith)
                requires
                    i + 1 <= usize::MAX,
            ;
            total = total + (self.contents[i].size as u128);
            i = i + 1;
        }
        assert(self@.files.take(self.contents.len() as int) == self@.files);
        total
    }

    /// The latest modification time among the records held; `now` for an
    /// empty directory.
    pub fn last_modified(&self, now: Timestamp) -> (t: Timestamp)
        ensures
            t == newest(self@.files, now),
            self@.files.len() == 0 ==> t == now,
    {
        if self.contents.len() == 0 {
            return now;
        }
        let mut latest = self.contents[0].last_modified;
        let mut i: usize = 1;
        assert(self@.files.take(1).len() == 1);
        while i < self.contents.len()
            invariant
                1 <= i <= self.contents.len(),
                latest == newest(self@.files.take(i as int), now),
            decreases self.contents.len() - i,
        {
            assert(self@.files.take(i + 1).drop_last() == self@.files.take(i as int));
            if self.contents[i].last_modified.is_after(&latest) {
                latest = self.contents[i].last_modified;
            }
            i = i + 1;
        }
        assert(self@.files.take(self.contents.len() as int) == self@.files);
        latest
    }
}

} // verus!
