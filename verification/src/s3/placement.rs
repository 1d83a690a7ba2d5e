//! What holds of every projection: where each key ends up.

use crate::s3::bucket::{
    dir_names, ensure_leading_text, is_root_prefix, key_segments, normalized_prefix, place,
    project_model, surround_text, ListingModel,
};
use crate::s3::paging::request_prefix;
use crate::s3::UrlModel;
use crate::s3::content::{file_keys, lemma_put_file, DirectoryModel, FileModel};
use crate::text::{
    first_index, has_item, join, lemma_first_index, lemma_has_item,
    lemma_segments_push_delimiter, lemma_segments_skip_delimiter, segments,
};
use vstd::prelude::*;

verus! {

/// Every key that `out` holds lies where its path segments below `prefix` put
/// it: a key listed directly has one segment, a key in a directory has more
/// and the first of them is the name of the directory.
pub open spec fn placed_by_segments(out: ListingModel, prefix: Seq<char>, delimiter: char) -> bool {
    &&& out.wf()
    &&& forall|key: Seq<char>| #[trigger]
        out.has_object(key) ==> key_segments(key, prefix, delimiter).len() == 1
    &&& forall|i: int, key: Seq<char>| #[trigger]
        out.directory_holds(i, key) ==> key_segments(key, prefix, delimiter).len() >= 2
            && key_segments(key, prefix, delimiter)[0] == out.directories[i].name
}

/// Listing a record directly adds its key to the keys listed directly and
/// touches nothing else.
pub proof fn lemma_with_object(out: ListingModel, file: FileModel)
    requires
        out.wf(),
    ensures
        out.with_object(file).wf(),
        out.with_object(file).directories == out.directories,
        forall|key: Seq<char>| #[trigger]
            out.with_object(file).has_object(key) <==> (out.has_object(key) || key == file.key),
{
    let keys = file_keys(out.objects);
    lemma_first_index(keys, file.key);
    if !out.has_object(file.key) {
        let keys2 = file_keys(out.objects.push(file));
        assert(keys2 =~= keys.push(file.key));
        assert forall|key: Seq<char>| #[trigger]
            out.with_object(file).has_object(key) <==> (out.has_object(key) || key
                == file.key) by {
            lemma_has_item(keys2, key);
            lemma_has_item(keys, key);
            if keys.contains(key) {
                let j = choose|j: int| 0 <= j < keys.len() && keys[j] == key;
                assert(keys2[j] == key);
            }
            if key == file.key {
                assert(keys2[keys.len() as int] == key);
            }
            if keys2.contains(key) {
                let j = choose|j: int| 0 <= j < keys2.len() && keys2[j] == key;
                if j < keys.len() {
                    assert(keys[j] == key);
                }
            }
        }
    }
}

/// Putting a record into the directory of a name adds its key to that
/// directory, which is created if need be, and touches nothing else.
pub proof fn lemma_with_directory_file(out: ListingModel, name: Seq<char>, file: FileModel)
    requires
        out.wf(),
    ensures
        ({
            let after = out.with_directory_file(name, file);
            let at = first_index(dir_names(out.directories), name);
            &&& after.wf()
            &&& after.objects == out.objects
            &&& 0 <= at < after.directories.len()
            &&& after.directories[at].name == name
            &&& after.directories.len() >= out.directories.len()
            &&& forall|i: int|
                0 <= i < out.directories.len() ==> (#[trigger] after.directories[i]).name
                    == out.directories[i].name
            &&& forall|i: int, key: Seq<char>| #[trigger]
                after.directory_holds(i, key) <==> (out.directory_holds(i, key) || (i == at && key
                    == file.key))
        }),
{
    let dirs = out.directories;
    let names = dir_names(dirs);
    let at = first_index(names, name);
    lemma_first_index(names, name);
    let fresh = DirectoryModel { name, files: Seq::<FileModel>::empty() };
    let mid = out.with_directory(fresh);
    let after = out.with_directory_file(name, file);
    assert(after == mid.with_file_at(at, file));
    if at < dirs.len() {
        assert(mid == out);
        assert(names[at] == name);
        lemma_put_file(dirs[at].files, file);
        assert(dir_names(after.directories) =~= names);
        assert forall|i: int, key: Seq<char>| #[trigger]
            after.directory_holds(i, key) <==> (out.directory_holds(i, key) || (i == at && key
                == file.key)) by {
            if 0 <= i < dirs.len() && i != at {
                assert(after.directories[i] == dirs[i]);
            }
        }
    } else {
        assert(mid.directories == dirs.push(fresh));
        assert(file_keys(fresh.files) =~= Seq::<Seq<char>>::empty());
        lemma_put_file(fresh.files, file);
        assert(after.directories =~= dirs.push(fresh.with_file(file)));
        assert(dir_names(after.directories) =~= names.push(name));
        assert forall|i: int, key: Seq<char>| #[trigger]
            after.directory_holds(i, key) <==> (out.directory_holds(i, key) || (i == at && key
                == file.key)) by {
            if 0 <= i < dirs.len() {
                assert(after.directories[i] == dirs[i]);
            }
            if i == at {
                assert(!has_item(file_keys(fresh.files), key));
            }
        }
    }
}

/// Placing one more record keeps every key where its segments put it, loses
/// none, and puts the key of the record in its place.
pub proof fn lemma_place(out: ListingModel, file: FileModel, prefix: Seq<char>, delimiter: char)
    requires
        placed_by_segments(out, prefix, delimiter),
    ensures
        ({
            let after = place(out, file, prefix, delimiter, false);
            let segs = key_segments(file.key, prefix, delimiter);
            &&& placed_by_segments(after, prefix, delimiter)
            &&& forall|key: Seq<char>| #[trigger] out.has_object(key) ==> after.has_object(key)
            &&& forall|key: Seq<char>| #[trigger] out.in_directory(key) ==> after.in_directory(key)
            &&& segs.len() == 1 ==> after.has_object(file.key)
            &&& segs.len() >= 2 ==> after.in_directory(file.key)
        }),
{
    let after = place(out, file, prefix, delimiter, false);
    let segs = key_segments(file.key, prefix, delimiter);
    if segs.len() == 1 {
        lemma_with_object(out, file);
        assert(after.has_object(file.key));
        assert forall|i: int, key: Seq<char>| #[trigger]
            after.directory_holds(i, key) implies key_segments(key, prefix, delimiter).len() >= 2
            && key_segments(key, prefix, delimiter)[0] == after.directories[i].name by {
            assert(out.directory_holds(i, key));
        }
        assert forall|key: Seq<char>| #[trigger] out.in_directory(key) implies after.in_directory(
            key,
        ) by {
            let i = choose|i: int| out.directory_holds(i, key);
            assert(after.directory_holds(i, key));
        }
    } else if segs.len() >= 2 {
        lemma_with_directory_file(out, segs[0], file);
        let at = first_index(dir_names(out.directories), segs[0]);
        assert forall|key: Seq<char>| #[trigger] after.has_object(key) implies key_segments(
            key,
            prefix,
            delimiter,
        ).len() == 1 by {
            assert(out.has_object(key));
        }
        assert forall|i: int, key: Seq<char>| #[trigger]
            after.directory_holds(i, key) implies key_segments(key, prefix, delimiter).len() >= 2
            && key_segments(key, prefix, delimiter)[0] == after.directories[i].name by {
            if out.directory_holds(i, key) {
                assert(after.directories[i].name == out.directories[i].name);
            }
        }
        assert forall|key: Seq<char>| #[trigger] out.in_directory(key) implies after.in_directory(
            key,
        ) by {
            let i = choose|i: int| out.directory_holds(i, key);
            assert(after.directory_holds(i, key));
        }
        assert(after.directory_holds(at, file.key));
    }
}

/// In a projection that is not recursive, every key lies where its segments
/// put it, and every record with at least one segment was placed.
pub proof fn lemma_projection_placed(
    files: Seq<FileModel>,
    prefix: Seq<char>,
    delimiter: char,
)
    ensures
        ({
            let out = project_model(files, prefix, delimiter, false);
            &&& placed_by_segments(out, prefix, delimiter)
            &&& forall|k: int|
                0 <= k < files.len() && key_segments(
                    (#[trigger] files[k]).key,
                    prefix,
                    delimiter,
                ).len() == 1 ==> out.has_object(files[k].key)
            &&& forall|k: int|
                0 <= k < files.len() && key_segments(
                    (#[trigger] files[k]).key,
                    prefix,
                    delimiter,
                ).len() >= 2 ==> out.in_directory(files[k].key)
        }),
    decreases files.len(),
{
    let out = project_model(files, prefix, delimiter, false);
    if files.len() == 0 {
        assert(file_keys(out.objects) =~= Seq::<Seq<char>>::empty());
        assert(dir_names(out.directories) =~= Seq::<Seq<char>>::empty());
        assert forall|key: Seq<char>| !(#[trigger] out.has_object(key)) by {}
    } else {
        let head = files.drop_last();
        let before = project_model(head, prefix, delimiter, false);
        lemma_projection_placed(head, prefix, delimiter);
        lemma_place(before, files.last(), prefix, delimiter);
        assert forall|k: int|
            0 <= k < files.len() && key_segments(
                (#[trigger] files[k]).key,
                prefix,
                delimiter,
            ).len() == 1 implies out.has_object(files[k].key) by {
            if k < head.len() {
                assert(head[k] == files[k]);
                assert(before.has_object(files[k].key));
            }
        }
        assert forall|k: int|
            0 <= k < files.len() && key_segments(
                (#[trigger] files[k]).key,
                prefix,
                delimiter,
            ).len() >= 2 implies out.in_directory(files[k].key) by {
            if k < head.len() {
                assert(head[k] == files[k]);
                assert(before.in_directory(files[k].key));
            }
        }
    }
}

/// A projection that is not recursive assigns every listed key that has a
/// segment below the prefix to exactly one place: either it is listed
/// directly, which is so exactly when it has one segment, or it lies in one
/// directory and no other, the one named by its first segment. Never both,
/// never neither.
pub proof fn lemma_each_key_placed_once(
    files: Seq<FileModel>,
    prefix: Seq<char>,
    delimiter: char,
    k: int,
)
    requires
        0 <= k < files.len(),
        key_segments(files[k].key, prefix, delimiter).len() > 0,
    ensures
        ({
            let out = project_model(files, prefix, delimiter, false);
            let key = files[k].key;
            let segs = key_segments(key, prefix, delimiter);
            &&& out.has_object(key) != out.in_directory(key)
            &&& out.has_object(key) <==> segs.len() == 1
            &&& forall|i: int, j: int|
                out.directory_holds(i, key) && out.directory_holds(j, key) ==> i == j
            &&& forall|i: int| #[trigger]
                out.directory_holds(i, key) ==> out.directories[i].name == segs[0]
        }),
{
    let out = project_model(files, prefix, delimiter, false);
    let key = files[k].key;
    lemma_projection_placed(files, prefix, delimiter);
    if out.in_directory(key) {
        let i = choose|i: int| out.directory_holds(i, key);
        assert(out.directory_holds(i, key));
    }
    assert forall|i: int, j: int|
        out.directory_holds(i, key) && out.directory_holds(j, key) implies i == j by {
        let names = dir_names(out.directories);
        assert(names[i] == out.directories[i].name);
        assert(names[j] == out.directories[j].name);
    }
}

/// A recursive projection builds no directory. A listed key is listed
/// directly exactly when it has one segment below the prefix, or has more and
/// the prefix stands for the bucket root; below any other prefix the deeper
/// keys are left out.
pub proof fn lemma_recursive_projection(
    files: Seq<FileModel>,
    prefix: Seq<char>,
    delimiter: char,
)
    ensures
        ({
            let out = project_model(files, prefix, delimiter, true);
            &&& out.wf()
            &&& out.directories.len() == 0
            &&& forall|key: Seq<char>| #[trigger]
                out.has_object(key) <==> (exists|k: int|
                    0 <= k < files.len() && (#[trigger] files[k]).key == key) && (key_segments(
                    key,
                    prefix,
                    delimiter,
                ).len() == 1 || (key_segments(key, prefix, delimiter).len() >= 2
                    && is_root_prefix(prefix, delimiter)))
        }),
    decreases files.len(),
{
    let out = project_model(files, prefix, delimiter, true);
    if files.len() == 0 {
        assert(file_keys(out.objects) =~= Seq::<Seq<char>>::empty());
        assert(dir_names(out.directories) =~= Seq::<Seq<char>>::empty());
        assert forall|key: Seq<char>| !(#[trigger] out.has_object(key)) by {}
    } else {
        let head = files.drop_last();
        let before = project_model(head, prefix, delimiter, true);
        lemma_recursive_projection(head, prefix, delimiter);
        lemma_with_object(before, files.last());
        let kept = key_segments(files.last().key, prefix, delimiter).len() == 1 || (key_segments(
            files.last().key,
            prefix,
            delimiter,
        ).len() >= 2 && is_root_prefix(prefix, delimiter));
        assert(out == if kept {
            before.with_object(files.last())
        } else {
            before
        });
        assert forall|key: Seq<char>| #[trigger]
            out.has_object(key) <==> (exists|k: int|
                0 <= k < files.len() && (#[trigger] files[k]).key == key) && (key_segments(
                key,
                prefix,
                delimiter,
            ).len() == 1 || (key_segments(key, prefix, delimiter).len() >= 2 && is_root_prefix(
                prefix,
                delimiter,
            ))) by {
            let listed = exists|k: int| 0 <= k < files.len() && (#[trigger] files[k]).key == key;
            let listed_before = exists|k: int|
                0 <= k < head.len() && (#[trigger] head[k]).key == key;
            if listed_before {
                let k = choose|k: int| 0 <= k < head.len() && (#[trigger] head[k]).key == key;
                assert(files[k].key == key);
            }
            if key == files.last().key {
                assert(files[files.len() - 1].key == key);
            }
            if listed {
                let k = choose|k: int| 0 <= k < files.len() && (#[trigger] files[k]).key == key;
                if k < head.len() {
                    assert(head[k].key == key);
                }
            }
        }
    }
}

/// Segments joined by the delimiter start with the first character of the
/// first and end with the last character of the last, neither of which is
/// the delimiter.
pub proof fn lemma_join_ends(parts: Seq<Seq<char>>, delimiter: char)
    requires
        parts.len() > 0,
        forall|k: int|
            0 <= k < parts.len() ==> (#[trigger] parts[k]).len() > 0 && !parts[k].contains(
                delimiter,
            ),
    ensures
        join(parts, seq![delimiter]).len() > 0,
        join(parts, seq![delimiter])[0] != delimiter,
        join(parts, seq![delimiter]).last() != delimiter,
    decreases parts.len(),
{
    let last = parts.last();
    assert(last == parts[parts.len() - 1]);
    assert(last.contains(last[0]));
    assert(last.contains(last[last.len() - 1]));
    if parts.len() > 1 {
        let head = parts.drop_last();
        assert forall|k: int| 0 <= k < head.len() implies (#[trigger] head[k]).len() > 0
            && !head[k].contains(delimiter) by {
            assert(head[k] == parts[k]);
        }
        lemma_join_ends(head, delimiter);
        let j = join(head, seq![delimiter]);
        assert(join(parts, seq![delimiter]) =~= j + seq![delimiter] + last);
        assert(join(parts, seq![delimiter])[0] == j[0]);
    }
}

/// Below the prefix of a parsed address, a key that starts with the prefix
/// sent to the store has the segments of what follows that prefix.
pub proof fn lemma_segments_below_prefix(url: UrlModel, delimiter: char, rest: Seq<char>)
    requires
        url.wf(delimiter),
    ensures
        key_segments(
            request_prefix(url.segments, delimiter) + rest,
            normalized_prefix(url.segments, delimiter),
            delimiter,
        ) == segments(rest, delimiter),
{
    let d = delimiter;
    let j = join(url.segments, seq![d]);
    let key = request_prefix(url.segments, d) + rest;
    let prefix = normalized_prefix(url.segments, d);
    let lead = ensure_leading_text(key, d);
    let whole = surround_text(key, d);
    if url.segments.len() == 0 {
        assert(j.len() == 0);
        assert(key =~= rest);
        assert(prefix =~= seq![d]);
        assert(whole.len() > 0 && whole[0] == d);
        assert(prefix =~= whole.subrange(0, 1));
        lemma_segments_skip_delimiter(whole, d);
        if whole != lead {
            assert(whole == lead.push(d));
            lemma_segments_push_delimiter(lead, d);
        }
        if lead != key {
            assert(lead == seq![d] + key);
            lemma_segments_skip_delimiter(lead, d);
            assert(lead.skip(1) =~= key);
        }
    } else {
        lemma_join_ends(url.segments, d);
        assert(key =~= j + seq![d] + rest);
        assert(key[0] == j[0]);
        assert(lead == seq![d] + key);
        assert(ensure_leading_text(j, d) == seq![d] + j);
        assert((seq![d] + j).last() == j.last());
        assert(prefix =~= seq![d] + j + seq![d]);
        assert(prefix =~= whole.subrange(0, prefix.len() as int));
        if whole == lead {
            assert(whole.skip(prefix.len() as int) =~= rest);
        } else {
            assert(whole == lead.push(d));
            assert(whole.skip(prefix.len() as int) =~= rest.push(d));
            lemma_segments_push_delimiter(rest, d);
        }
    }
}

/// Every key under a listed prefix goes to exactly one place. Where the
/// records were listed under the prefix of a parsed address and one of them
/// has a key that starts with the prefix sent to the store and goes on with
/// at least one segment, the projection that is not recursive either lists
/// that key directly, exactly when one segment follows the prefix, or holds
/// it in one directory and no other, the one named by the first segment that
/// follows. Never both, never neither.
pub proof fn lemma_key_under_prefix_placed_once(
    files: Seq<FileModel>,
    url: UrlModel,
    delimiter: char,
    k: int,
    rest: Seq<char>,
)
    requires
        url.wf(delimiter),
        0 <= k < files.len(),
        files[k].key == request_prefix(url.segments, delimiter) + rest,
        segments(rest, delimiter).len() > 0,
    ensures
        ({
            let out = project_model(
                files,
                normalized_prefix(url.segments, delimiter),
                delimiter,
                false,
            );
            let key = files[k].key;
            &&& out.has_object(key) != out.in_directory(key)
            &&& out.has_object(key) <==> segments(rest, delimiter).len() == 1
            &&& forall|i: int, j: int|
                out.directory_holds(i, key) && out.directory_holds(j, key) ==> i == j
            &&& forall|i: int| #[trigger]
                out.directory_holds(i, key) ==> out.directories[i].name == segments(
                    rest,
                    delimiter,
                )[0]
        }),
{
    lemma_segments_below_prefix(url, delimiter, rest);
    lemma_each_key_placed_once(files, normalized_prefix(url.segments, delimiter), delimiter, k);
}

} // verus!
