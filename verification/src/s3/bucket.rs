//! The one-level view of a listed prefix: the objects directly below it and
//! the synthetic directories that stand for everything deeper.

use crate::s3::content::{file_keys, DirectoryModel, FileModel, S3Directory, S3File};
use crate::s3::{parse_text, ParsedS3Url, UrlParseError};
use crate::text::{
    append_chars, buffers, chars_of, copy_range, distinct, first_index, has_item, join,
    join_with, lemma_first_index_unique, segments, split_segments, starts_with, string_of,
    strip_prefix,
};
use vstd::prelude::*;

verus! {

/// `s`, with `delimiter` put in front where it does not start with it.
pub open spec fn ensure_leading_text(s: Seq<char>, delimiter: char) -> Seq<char> {
    if s.len() > 0 && s[0] == delimiter {
        s
    } else {
        seq![delimiter] + s
    }
}

/// `s`, with `delimiter` put behind where it does not end with it.
pub open spec fn ensure_trailing_text(s: Seq<char>, delimiter: char) -> Seq<char> {
    if s.len() > 0 && s.last() == delimiter {
        s
    } else {
        s.push(delimiter)
    }
}

/// `s` between delimiters: one is added at each end that lacks it.
pub open spec fn surround_text(s: Seq<char>, delimiter: char) -> Seq<char> {
    ensure_trailing_text(ensure_leading_text(s, delimiter), delimiter)
}

/// The prefix that is taken off every key: the path segments joined by the
/// delimiter, between delimiters. For the bucket root it is the delimiter
/// alone.
pub open spec fn normalized_prefix(path_segments: Seq<Seq<char>>, delimiter: char) -> Seq<char> {
    surround_text(join(path_segments, seq![delimiter]), delimiter)
}

/// Whether `prefix` stands for the bucket root: it is empty or the delimiter alone.
pub open spec fn is_root_prefix(prefix: Seq<char>, delimiter: char) -> bool {
    prefix.len() == 0 || prefix == seq![delimiter]
}

/// The path segments of `key` below `prefix`: the key is put between
/// delimiters, `prefix` is taken off its front, and what is left is cut at
/// the delimiter, empty pieces dropped.
pub open spec fn key_segments(key: Seq<char>, prefix: Seq<char>, delimiter: char) -> Seq<
    Seq<char>,
> {
    segments(strip_prefix(surround_text(key, delimiter), prefix), delimiter)
}

/// The names of a sequence of directories, in order.
pub open spec fn dir_names(dirs: Seq<DirectoryModel>) -> Seq<Seq<char>> {
    Seq::new(dirs.len(), |i: int| dirs[i].name)
}

/// What a projection stands for: the objects directly below the prefix and
/// the synthetic directories, each in the order of first appearance.
pub struct ListingModel {
    pub objects: Seq<FileModel>,
    pub directories: Seq<DirectoryModel>,
}

impl ListingModel {
    /// No object key and no directory name occurs twice, and every directory
    /// is well-formed.
    pub open spec fn wf(self) -> bool {
        &&& distinct(file_keys(self.objects))
        &&& distinct(dir_names(self.directories))
        &&& forall|i: int| 0 <= i < self.directories.len() ==> (#[trigger] self.directories[i]).wf()
    }

    /// The projection of nothing.
    pub open spec fn empty() -> ListingModel {
        ListingModel {
            objects: Seq::<FileModel>::empty(),
            directories: Seq::<DirectoryModel>::empty(),
        }
    }

    /// Whether an object with this key is listed directly.
    pub open spec fn has_object(self, key: Seq<char>) -> bool {
        has_item(file_keys(self.objects), key)
    }

    /// Whether the directory at position `i` holds a record with this key.
    pub open spec fn directory_holds(self, i: int, key: Seq<char>) -> bool {
        0 <= i < self.directories.len() && self.directories[i].has_file(key)
    }

    /// Whether some directory holds a record with this key.
    pub open spec fn in_directory(self, key: Seq<char>) -> bool {
        exists|i: int| self.directory_holds(i, key)
    }

    /// The projection with `file` listed directly, unless its key already is:
    /// the first record of a key stays.
    pub open spec fn with_object(self, file: FileModel) -> ListingModel {
        if self.has_object(file.key) {
            self
        } else {
            ListingModel { objects: self.objects.push(file), directories: self.directories }
        }
    }

    /// The projection with `directory` added at the end, unless one of that
    /// name is there already.
    pub open spec fn with_directory(self, directory: DirectoryModel) -> ListingModel {
        if has_item(dir_names(self.directories), directory.name) {
            self
        } else {
            ListingModel { objects: self.objects, directories: self.directories.push(directory) }
        }
    }

    /// The projection with `file` put into the directory at position `i`.
    pub open spec fn with_file_at(self, i: int, file: FileModel) -> ListingModel {
        ListingModel {
            objects: self.objects,
            directories: self.directories.update(i, self.directories[i].with_file(file)),
        }
    }

    /// The projection with `file` put into the directory called `name`, which
    /// is created empty at the end if it is not there yet.
    pub open spec fn with_directory_file(self, name: Seq<char>, file: FileModel) -> ListingModel {
        let fresh = DirectoryModel { name, files: Seq::<FileModel>::empty() };
        self.with_directory(fresh).with_file_at(
            first_index(dir_names(self.directories), name),
            file,
        )
    }
}

/// Where one record goes, by the path segments of its key below `prefix`.
///
/// With no segment the record is skipped. With one segment it is listed
/// directly. With more, it goes into the directory named by the first segment
/// unless `recursive` is set; with `recursive` set it is listed directly, but
/// only where `prefix` stands for the bucket root, and skipped otherwise.
pub open spec fn place(
    out: ListingModel,
    file: FileModel,
    prefix: Seq<char>,
    delimiter: char,
    recursive: bool,
) -> ListingModel {
    let segs = key_segments(file.key, prefix, delimiter);
    if segs.len() == 0 {
        out
    } else if segs.len() == 1 {
        out.with_object(file)
    } else if !recursive {
        out.with_directory_file(segs[0], file)
    } else if is_root_prefix(prefix, delimiter) {
        out.with_object(file)
    } else {
        out
    }
}

/// The projection of `files`: every record placed in turn, first to last.
pub open spec fn project_model(
    files: Seq<FileModel>,
    prefix: Seq<char>,
    delimiter: char,
    recursive: bool,
) -> ListingModel
    decreases files.len(),
{
    if files.len() == 0 {
        ListingModel::empty()
    } else {
        place(
            project_model(files.drop_last(), prefix, delimiter, recursive),
            files.last(),
            prefix,
            delimiter,
            recursive,
        )
    }
}

/// What a sequence of records stands for.
pub open spec fn file_models(files: Seq<S3File>) -> Seq<FileModel> {
    Seq::new(files.len(), |i: int| files[i]@)
}

/// `v`, with `delimiter` put behind where it does not end with it.
fn ensure_trailing(v: Vec<char>, delimiter: char) -> (r: Vec<char>)
    ensures
        r@ == ensure_trailing_text(v@, delimiter),
{
    let mut r = v;
    if !(r.len() > 0 && r[r.len() - 1] == delimiter) {
        r.push(delimiter);
    }
    r
}

/// `v` between delimiters.
fn surround(v: &Vec<char>, delimiter: char) -> (r: Vec<char>)
    ensures
        r@ == surround_text(v@, delimiter),
{
    let mut r: Vec<char> = Vec::new();
    if !(v.len() > 0 && v[0] == delimiter) {
        r.push(delimiter);
    }
    append_chars(&mut r, v);
    assert(r@ =~= ensure_leading_text(v@, delimiter));
    ensure_trailing(r, delimiter)
}

/// Ensures that `path` ends with the delimiter.
pub fn ensure_trailing_slash(path: &String, delimiter: char) -> (r: String)
    ensures
        r@ == ensure_trailing_text(path@, delimiter),
{
    string_of(&ensure_trailing(chars_of(path.as_str()), delimiter))
}

/// Ensures that `path` starts and ends with the delimiter.
pub fn ensure_surrounding_slashes(path: &String, delimiter: char) -> (r: String)
    ensures
        r@ == surround_text(path@, delimiter),
{
    string_of(&surround(&chars_of(path.as_str()), delimiter))
}

/// The prefix that is taken off every key listed under `parsed`.
pub fn prefix_of(parsed: &ParsedS3Url, delimiter: char) -> (r: Vec<char>)
    ensures
        r@ == normalized_prefix(parsed@.segments, delimiter),
{
    surround(&join_with(&parsed.segments, delimiter), delimiter)
}

/// The path segments of `key` below `prefix`.
fn segments_below(key: &String, prefix: &Vec<char>, delimiter: char) -> (segs: Vec<Vec<char>>)
    ensures
        buffers(segs@) == key_segments(key@, prefix@, delimiter),
{
    let whole = surround(&chars_of(key.as_str()), delimiter);
    if starts_with(&whole, prefix) {
        let below = copy_range(&whole, prefix.len(), whole.len());
        assert(below@ == whole@.skip(prefix@.len() as int));
        split_segments(&below, delimiter)
    } else {
        split_segments(&whole, delimiter)
    }
}

/// The result of a projection: the objects directly below the listed prefix
/// and the synthetic directories.
#[derive(Debug)]
pub struct ListOutput {
    objects: Vec<S3File>,
    directories: Vec<S3Directory>,
}

impl View for ListOutput {
    type V = ListingModel;

    closed spec fn view(&self) -> ListingModel {
        ListingModel {
            objects: file_models(self.objects@),
            directories: Seq::new(self.directories@.len(), |i: int| self.directories@[i]@),
        }
    }
}

impl ListOutput {
    /// The projection of nothing.
    pub fn new() -> (out: ListOutput)
        ensures
            out@ == ListingModel::empty(),
            out@.wf(),
    {
        let out = ListOutput { objects: Vec::new(), directories: Vec::new() };
        assert(out@.objects =~= Seq::<FileModel>::empty());
        assert(out@.directories =~= Seq::<DirectoryModel>::empty());
        out
    }

    /// The objects listed directly, in the order in which their keys first
    /// came in.
    pub fn objects(&self) -> (r: &Vec<S3File>)
        ensures
            file_models(r@) == self@.objects,
    {
        &self.objects
    }

    /// The synthetic directories, in the order in which their names first
    /// came in.
    pub fn directories(&self) -> (r: &Vec<S3Directory>)
        ensures
            r@.len() == self@.directories.len(),
            forall|i: int| 0 <= i < r@.len() ==> (#[trigger] r@[i])@ == self@.directories[i],
    {
        &self.directories
    }

    /// Lists `object` directly unless an object with the same key is listed
    /// already.
    pub fn add_object(&mut self, object: S3File)
        requires
            old(self)@.wf(),
        ensures
            final(self)@ == old(self)@.with_object(object@),
            final(self)@.wf(),
    {
        let ghost keys = file_keys(self@.objects);
        let mut i: usize = 0;
        while i < self.objects.len() && !(self.objects[i].key == object.key)
            invariant
                i <= self.objects.len(),
                keys == file_keys(self@.objects),
                forall|j: int| 0 <= j < i ==> keys[j] != object@.key,
            decreases self.objects.len() - i,
        {
            i = i + 1;
        }
        proof {
            lemma_first_index_unique(keys, object@.key, i as int);
        }
        if i == self.objects.len() {
            self.objects.push(object);
            assert(self@.objects =~= old(self)@.objects.push(object@));
            assert(self@.directories =~= old(self)@.directories);
            assert(file_keys(self@.objects) =~= keys.push(object@.key));
        }
    }

    /// Position of the directory called as `directory` is, which is added at
    /// the end if none of that name is there yet.
    pub fn get_or_insert_directory(&mut self, directory: S3Directory) -> (i: usize)
        requires
            old(self)@.wf(),
            directory@.wf(),
        ensures
            i == first_index(dir_names(old(self)@.directories), directory@.name),
            i < final(self)@.directories.len(),
            final(self)@ == old(self)@.with_directory(directory@),
            final(self)@.directories[i as int].name == directory@.name,
            final(self)@.wf(),
    {
        let ghost names = dir_names(self@.directories);
        let mut i: usize = 0;
        while i < self.directories.len() && !(*self.directories[i].name() == *directory.name())
            invariant
                i <= self.directories.len(),
                names == dir_names(self@.directories),
                forall|j: int| 0 <= j < i ==> names[j] != directory@.name,
            decreases self.directories.len() - i,
        {
            i = i + 1;
        }
        proof {
            lemma_first_index_unique(names, directory@.name, i as int);
        }
        if i == self.directories.len() {
            self.directories.push(directory);
            assert(self@.directories =~= old(self)@.directories.push(directory@));
            assert(self@.objects =~= old(self)@.objects);
            assert(dir_names(self@.directories) =~= names.push(directory@.name));
        }
        i
    }

    /// Puts `file` into the directory at position `index`.
    pub fn add_file_to(&mut self, index: usize, file: S3File)
        requires
            old(self)@.wf(),
            index < old(self)@.directories.len(),
        ensures
            final(self)@ == old(self)@.with_file_at(index as int, file@),
            final(self)@.wf(),
    {
        assert(self@.directories[index as int].wf());
        self.directories[index].add_file(file);
        assert(self@.directories =~= old(self)@.directories.update(
            index as int,
            old(self)@.directories[index as int].with_file(file@),
        ));
        assert(self@.objects =~= old(self)@.objects);
        assert(dir_names(self@.directories) =~= dir_names(old(self)@.directories));
    }
}

/// Projects `objects`, listed under `parsed`, onto one level: every record is
/// placed in turn as `place` says.
pub fn project(objects: &Vec<S3File>, parsed: &ParsedS3Url, delimiter: char, recursive: bool) -> (out:
    ListOutput)
    ensures
        out@ == project_model(
            file_models(objects@),
            normalized_prefix(parsed@.segments, delimiter),
            delimiter,
            recursive,
        ),
        out@.wf(),
{
    let prefix = prefix_of(parsed, delimiter);
    let root = prefix.len() == 0 || (prefix.len() == 1 && prefix[0] == delimiter);
    assert(root == is_root_prefix(prefix@, delimiter)) by {
        if prefix.len() == 1 && prefix[0] == delimiter {
            assert(prefix@ =~= seq![delimiter]);
        }
    }
    let mut out = ListOutput::new();
    let mut i: usize = 0;
    while i < objects.len()
        invariant
            i <= objects.len(),
            root == is_root_prefix(prefix@, delimiter),
            out@ == project_model(
                file_models(objects@).take(i as int),
                prefix@,
                delimiter,
                recursive,
            ),
            out@.wf(),
        decreases objects.len() - i,
    {
        let ghost all = file_models(objects@);
        assert(all.take(i + 1).drop_last() == all.take(i as int));
        assert(all.take(i + 1).last() == objects@[i as int]@);
        let object = &objects[i];
        let segs = segments_below(&object.key, &prefix, delimiter);
        assert(buffers(segs@).len() == segs@.len());
        if segs.len() == 1 {
            out.add_object(object.duplicate());
        } else if segs.len() > 1 {
            if !recursive {
                let name = string_of(&segs[0]);
                assert(name@ == buffers(segs@)[0]);
                let at = out.get_or_insert_directory(S3Directory::new(name));
                out.add_file_to(at, object.duplicate());
            } else if root {
                out.add_object(object.duplicate());
            }
        }
        i = i + 1;
    }
    assert(file_models(objects@).take(objects.len() as int) == file_models(objects@));
    out
}

/// What projecting `files`, listed under `path`, gives: the failure of
/// parsing `path`, or the projection under the prefix of its segments.
pub open spec fn filter_model(
    files: Seq<FileModel>,
    path: Seq<char>,
    delimiter: char,
    recursive: bool,
) -> Result<ListingModel, UrlParseError> {
    match parse_text(path, delimiter) {
        Ok(url) => Ok(
            project_model(
                files,
                normalized_prefix(url.segments, delimiter),
                delimiter,
                recursive,
            ),
        ),
        Err(e) => Err(e),
    }
}

/// Receives the objects listed under `path` and returns the view of one
/// level: the objects directly below `path`, and one directory for each
/// first segment of the keys that lie deeper.
///
/// Fails where `path` does not parse, with the error of the parser.
pub fn filter_objects_by_path(
    objects: Vec<S3File>,
    path: &str,
    delimiter: char,
    recursive: bool,
) -> (r: Result<ListOutput, UrlParseError>)
    ensures
        match r {
            Ok(out) => filter_model(file_models(objects@), path@, delimiter, recursive) == Ok::<
                ListingModel,
                UrlParseError,
            >(out@) && out@.wf(),
            Err(e) => filter_model(file_models(objects@), path@, delimiter, recursive) == Err::<
                ListingModel,
                UrlParseError,
            >(e),
        },
{
    let url = String::from_str(path);
    match ParsedS3Url::parse_from(&url, &delimiter) {
        Ok(parsed) => Ok(project(&objects, &parsed, delimiter, recursive)),
        Err(e) => Err(e),
    }
}

} // verus!
