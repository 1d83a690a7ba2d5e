//! What holds of the profile store across saving, loading and removing.

use crate::s3::profile::{
    appended_text, collect_properties, content_lines, drops_line, header_name,
    is_comment_line_text, is_empty_line_text, is_header, lines,
    load_lines, load_text, profile_names, property_keys, property_lines_text, property_of,
    put_profile, remove_text, sanitize, save_text, section_text, store_get, store_has, strip_cr,
    surviving_lines, LoadState, Loaded, ProfileError, ProfileModel, PropertyModel, RemovalModel,
};
use crate::text::{
    distinct, first_index, is_blank, join, leading_blanks, lemma_first_index,
    lemma_first_index_unique, lemma_has_item, lemma_leading_blanks, lemma_leading_blanks_unique,
    lemma_trailing_blanks, lemma_trailing_blanks_unique, lemma_trim_fixed, lemma_without_absent,
    trailing_blanks, trim, trim_start, without_char,
};
use crate::utils::validator::valid_profile_name;
use vstd::prelude::*;

verus! {

/// The line feed.
pub open spec fn line_feed() -> Seq<char> {
    seq!['\n']
}

/// A name that a header line gives back: it holds no bracket and no line feed.
pub open spec fn plain_name(name: Seq<char>) -> bool {
    !name.contains('[') && !name.contains(']') && !name.contains('\n')
}

/// A property that its line gives back. Key and value have no blank at
/// either end and hold no `=` and no line feed; the value does not end with a
/// carriage return; the key does not open like a header or a comment.
pub open spec fn plain_property(p: PropertyModel) -> bool {
    &&& trim(p.key) == p.key
    &&& trim(p.value) == p.value
    &&& !p.key.contains('=')
    &&& !p.value.contains('=')
    &&& !p.key.contains('\n')
    &&& !p.value.contains('\n')
    &&& p.value.len() > 0 ==> p.value.last() != '\r'
    &&& p.key.len() > 0 ==> p.key[0] != '[' && p.key[0] != '#' && p.key[0] != ';'
}

/// A profile whose section gives it back when loaded.
pub open spec fn plain_profile(profile: ProfileModel) -> bool {
    &&& plain_name(profile.name)
    &&& forall|i: int|
        0 <= i < profile.properties.len() ==> plain_property(#[trigger] profile.properties[i])
}

/// Whether a content line is one that removing `target` takes out.
pub open spec fn line_of_target(target: ProfileModel, line: Seq<char>) -> bool {
    drops_line(target, line) == Ok::<bool, ProfileError>(true)
}

/// Whether removing `target` would take a property line out of the content
/// lines of `contents`: the line gives a key and a value that are those of a
/// property of `target`.
pub open spec fn shares_a_line(target: ProfileModel, contents: Seq<char>) -> bool {
    exists|i: int|
        0 <= i < content_lines(contents).len() && !is_header(
            #[trigger] content_lines(contents)[i],
        ) && line_of_target(target, content_lines(contents)[i])
}

/// Whether a content line of `contents` ends with a carriage return. Such a
/// line loses it when the file is written again.
pub open spec fn holds_carriage_return(contents: Seq<char>) -> bool {
    exists|i: int|
        0 <= i < content_lines(contents).len() && (#[trigger] content_lines(contents)[i]).last()
            == '\r'
}

/// What the file of a store is rewritten with when its content lines are
/// `content`: nothing is left of the file where there is no line.
pub open spec fn rewritten(content: Seq<Seq<char>>) -> RemovalModel {
    if content.len() == 0 {
        RemovalModel::DeleteFile
    } else {
        RemovalModel::Rewrite(join(content, line_feed()))
    }
}

/// Saving then loading. Where a plain profile with distinct keys is saved
/// into a store, the text of the store followed by what saving appends loads
/// again: into the profiles held before, in their order and unchanged,
/// followed by the saved profile with its name and its properties as they
/// were given. So the saved profile exists afterwards, and whether a profile
/// of any other name exists is as it was before.
pub proof fn lemma_save_then_load(profile: ProfileModel, contents: Seq<char>)
    requires
        save_text(profile, contents) is Ok,
        profile.wf(),
        plain_profile(profile),
    ensures
        ({
            let before = load_text(contents)->Ok_0;
            let after = load_text(contents + save_text(profile, contents)->Ok_0);
            &&& load_text(contents) is Ok
            &&& after == Ok::<Loaded, ProfileError>(
                Loaded {
                    profiles: before.profiles.push(profile),
                    duplicates: before.duplicates,
                },
            )
            &&& store_has(after->Ok_0.profiles, profile.name)
            &&& store_get(after->Ok_0.profiles, profile.name) == profile
            &&& forall|n: Seq<char>|
                n != profile.name ==> (store_has(after->Ok_0.profiles, n) <==> store_has(
                    before.profiles,
                    n,
                ))
            &&& forall|n: Seq<char>|
                n != profile.name && store_has(before.profiles, n) ==> store_get(
                    after->Ok_0.profiles,
                    n,
                ) == store_get(before.profiles, n)
        }),
{
    let old_lines = content_lines(contents);
    let state = LoadState::start().run(old_lines)->Ok_0;
    let done = state.commit()->Ok_0;
    lemma_content_lines_after_save(profile, contents);
    lemma_run_concat(LoadState::start(), old_lines, section_lines(profile));
    lemma_run_section(state, profile);
    lemma_store_push(done.profiles, profile);
}

/// Saving then removing. Where a plain profile with distinct keys is saved
/// into a store and then removed again, the file is left with the content
/// lines it had before the save, or is deleted where it had none. Unless one
/// of those lines ends with a carriage return, which is lost when the line is
/// written again, what is left loads as the store did before, so every other
/// profile is as it was.
///
/// This holds where no property line of the store gives a key and a value
/// that are those of a property of the saved profile: removing takes such
/// lines out wherever they stand.
pub proof fn lemma_save_then_remove(profile: ProfileModel, contents: Seq<char>)
    requires
        save_text(profile, contents) is Ok,
        profile.wf(),
        plain_profile(profile),
        !shares_a_line(profile, contents),
    ensures
        ({
            let saved = contents + save_text(profile, contents)->Ok_0;
            let held = load_text(saved)->Ok_0.profiles;
            &&& load_text(saved) is Ok
            &&& remove_text(held, profile.name, saved) == Ok::<RemovalModel, ProfileError>(
                rewritten(content_lines(contents)),
            )
            &&& !holds_carriage_return(contents) ==> load_text(
                join(content_lines(contents), line_feed()),
            ) == load_text(contents)
            &&& !store_has(load_text(contents)->Ok_0.profiles, profile.name)
        }),
{
    let content = content_lines(contents);
    let saved = contents + save_text(profile, contents)->Ok_0;
    lemma_save_then_load(profile, contents);
    lemma_content_lines_after_save(profile, contents);
    lemma_loaded_lines(content);
    assert forall|i: int| 0 <= i < content.len() implies drops_line(profile, #[trigger] content[i])
        == Ok::<bool, ProfileError>(false) by {
        if !is_header(content[i]) {
            assert(!line_of_target(profile, content[i]));
        }
    }
    lemma_surviving_all(profile, content);
    lemma_section_goes(profile);
    lemma_surviving_concat(profile, content, section_lines(profile));
    assert(content + Seq::<Seq<char>>::empty() =~= content);
    if !holds_carriage_return(contents) {
        lemma_rewrite_loads(contents);
    }
}

/// Removing then loading. Where a store loads and holds a profile of the
/// given name, the removal of that profile does not fail, and it changes the
/// file. Where the file is deleted, the store held no profile of another
/// name. Where the file is rewritten, what is written loads again, holds no
/// profile of the removed name, and holds a profile of any other name exactly
/// when the store held one before.
pub proof fn lemma_remove_then_load(contents: Seq<char>, name: Seq<char>)
    requires
        load_text(contents) is Ok,
        store_has(load_text(contents)->Ok_0.profiles, name),
    ensures
        ({
            let held = load_text(contents)->Ok_0.profiles;
            let plan = remove_text(held, name, contents);
            &&& plan is Ok
            &&& match plan->Ok_0 {
                RemovalModel::Unchanged => false,
                RemovalModel::DeleteFile => forall|n: Seq<char>| store_has(held, n) ==> n == name,
                RemovalModel::Rewrite(text) => {
                    &&& load_text(text) is Ok
                    &&& !store_has(load_text(text)->Ok_0.profiles, name)
                    &&& forall|n: Seq<char>|
                        n != name ==> (store_has(load_text(text)->Ok_0.profiles, n) <==> store_has(
                            held,
                            n,
                        ))
                },
            }
        }),
{
    let content = content_lines(contents);
    let start = LoadState::start();
    let s = start.run(content)->Ok_0;
    let held = load_text(contents)->Ok_0.profiles;
    let target = store_get(held, name);
    lemma_first_index(profile_names(held), name);
    assert(target.name == name);
    lemma_commit_knows(s);
    lemma_loaded_names_valid(content);
    assert(state_knows(s, name));
    assert(valid_profile_name(name));
    lemma_loaded_lines(content);
    assert forall|i: int| 0 <= i < content.len() implies drops_line(target, #[trigger] content[i])
        is Ok by {}
    lemma_surviving_reads(target, content);
    let kept = surviving_lines(target, content)->Ok_0;
    lemma_removal_simulates(target, content);
    let t = start.run(kept)->Ok_0;
    assert(t.commit() is Ok);
    lemma_commit_knows(t);
    lemma_content_lines_clean(contents);
    if kept.len() == 0 {
        assert(kept =~= Seq::<Seq<char>>::empty());
        assert(profile_names(start.profiles) =~= Seq::<Seq<char>>::empty());
        assert forall|n: Seq<char>| store_has(held, n) implies n == name by {
            if n != name {
                assert(!state_knows(t, n));
            }
        }
    } else {
        let text = join(kept, line_feed());
        let again = reread_lines(kept);
        assert forall|k: int| 0 <= k < kept.len() implies clean_line(#[trigger] kept[k])
            && readable(kept[k]) && !kept[k].contains('\n') by {
            let j = choose|j: int| 0 <= j < content.len() && kept[k] == content[j];
            assert(clean_line(content[j]));
        }
        assert forall|k: int| 0 <= k < kept.len() implies (#[trigger] kept[k]).len() > 0
            && !kept[k].contains('\n') by {
            assert(clean_line(kept[k]));
        }
        lemma_lines_of_join(kept);
        assert forall|k: int| 0 <= k < kept.len() implies !is_empty_line_text(
            strip_cr(#[trigger] kept[k]),
        ) && !is_comment_line_text(strip_cr(kept[k])) by {
            assert(clean_line(kept[k]));
            lemma_reread_line(kept[k]);
        }
        lemma_sanitize_reread(kept);
        assert(content_lines(text) == again);
        assert forall|k: int| 0 <= k < kept.len() implies if is_header(#[trigger] kept[k]) {
            again[k] == kept[k]
        } else {
            !is_header(again[k]) && property_of(again[k]) is Ok
        } by {
            assert(clean_line(kept[k]));
            lemma_reread_line(kept[k]);
        }
        lemma_same_headers_same_names(kept, again);
        let u = start.run(again)->Ok_0;
        lemma_commit_same_names(t, u);
        assert(load_text(text) is Ok);
        let after = load_text(text)->Ok_0.profiles;
        assert(profile_names(after) == profile_names(t.commit()->Ok_0.profiles));
        assert forall|n: Seq<char>| n != name implies (store_has(after, n) <==> store_has(
            held,
            n,
        )) by {
            assert(state_knows(t, n) <==> state_knows(s, n));
        }
    }
}

// ---------------------------------------------------------------------------
// Lines of texts
// ---------------------------------------------------------------------------
/// Behind a text that is empty or ends with a line feed, the lines of what
/// follows come after its own.
pub proof fn lemma_lines_concat(a: Seq<char>, b: Seq<char>)
    requires
        a.len() == 0 || a.last() == '\n',
    ensures
        lines(a + b) == lines(a) + lines(b),
    decreases a.len(),
{
    if a.len() == 0 {
        assert(a + b =~= b);
        assert(lines(a) + lines(b) =~= lines(b));
    } else {
        let i = first_index(a, '\n');
        lemma_first_index(a, '\n');
        if i == a.len() {
            assert(a[a.len() - 1] != '\n');
        }
        lemma_first_index_unique(a + b, '\n', i);
        assert((a + b).take(i) =~= a.take(i));
        assert((a + b).skip(i + 1) =~= a.skip(i + 1) + b);
        lemma_lines_concat(a.skip(i + 1), b);
        assert(lines(a + b) =~= lines(a) + lines(b));
    }
}

/// A line feed behind a text that does not end with one adds no line.
pub proof fn lemma_lines_push_line_feed(a: Seq<char>)
    requires
        a.len() > 0,
        a.last() != '\n',
    ensures
        lines(a.push('\n')) == lines(a),
    decreases a.len(),
{
    let i = first_index(a, '\n');
    lemma_first_index(a, '\n');
    let b = a.push('\n');
    lemma_first_index_unique(b, '\n', i);
    assert(b.take(i) =~= a.take(i));
    if i < a.len() {
        assert(b.skip(i + 1) =~= a.skip(i + 1).push('\n'));
        lemma_lines_push_line_feed(a.skip(i + 1));
    } else {
        assert(a.take(i) =~= a);
        assert(b.skip(i + 1).len() == 0);
        assert(lines(b.skip(i + 1)) =~= Seq::<Seq<char>>::empty());
        assert(lines(b) =~= seq![strip_cr(a)]);
    }
}

/// A text without a line feed is one line.
pub proof fn lemma_lines_single(x: Seq<char>)
    requires
        x.len() > 0,
        !x.contains('\n'),
    ensures
        lines(x) == seq![strip_cr(x)],
{
    lemma_has_item(x, '\n');
    lemma_first_index(x, '\n');
}

/// No line holds a line feed.
pub proof fn lemma_lines_hold_no_line_feed(s: Seq<char>)
    ensures
        forall|k: int| 0 <= k < lines(s).len() ==> !(#[trigger] lines(s)[k]).contains('\n'),
    decreases s.len(),
{
    if s.len() > 0 {
        let i = first_index(s, '\n');
        lemma_first_index(s, '\n');
        let first = strip_cr(s.take(i));
        assert(!first.contains('\n')) by {
            if first.contains('\n') {
                let j = choose|j: int| 0 <= j < first.len() && first[j] == '\n';
                assert(s[j] != '\n');
            }
        }
        if i < s.len() {
            lemma_lines_hold_no_line_feed(s.skip(i + 1));
            let rest = lines(s.skip(i + 1));
            assert forall|k: int| 0 <= k < lines(s).len() implies !(#[trigger] lines(
                s,
            )[k]).contains('\n') by {
                if k > 0 {
                    assert(lines(s)[k] == rest[k - 1]);
                }
            }
        } else {
            assert(s.take(i) =~= s);
        }
    }
}

/// The first and the last character of a trimmed text are no blanks.
pub proof fn lemma_trim_ends(s: Seq<char>)
    ensures
        trim(s).len() > 0 ==> !is_blank(trim(s)[0]) && !is_blank(trim(s).last()),
        trim(s).len() <= s.len(),
        forall|c: char| trim(s).contains(c) ==> s.contains(c),
{
    lemma_leading_blanks(s);
    let t = trim_start(s);
    lemma_trailing_blanks(t);
    let n = trailing_blanks(t);
    if t.len() > 0 {
        assert(t[0] == s[leading_blanks(s)]);
        if n == t.len() {
            assert(is_blank(t[0]));
        }
    }
    assert forall|c: char| trim(s).contains(c) implies s.contains(c) by {
        let j = choose|j: int| 0 <= j < trim(s).len() && trim(s)[j] == c;
        assert(trim(s)[j] == s[j + leading_blanks(s)]);
    }
}

/// Trimming twice is trimming once.
pub proof fn lemma_trim_idempotent(s: Seq<char>)
    ensures
        trim(trim(s)) == trim(s),
{
    lemma_trim_ends(s);
    lemma_trim_fixed(trim(s));
}

/// A text without blanks at its ends stays what it is when a blank is put
/// behind it and the result is trimmed.
pub proof fn lemma_trim_blank_behind(s: Seq<char>)
    requires
        s.len() > 0,
        trim(s) == s,
    ensures
        trim(s.push(' ')) == s,
{
    lemma_trim_ends(s);
    let t = s.push(' ');
    lemma_leading_blanks_unique(t, 0);
    assert(t.skip(0) =~= t);
    assert(t[t.len() - 2] == s.last());
    lemma_trailing_blanks_unique(t, 1);
    assert(t.take(t.len() - 1) =~= s);
}

/// A text without blanks at its ends stays what it is when a blank is put
/// before it and the result is trimmed.
pub proof fn lemma_trim_blank_before(s: Seq<char>)
    requires
        s.len() > 0,
        trim(s) == s,
    ensures
        trim(seq![' '] + s) == s,
{
    lemma_trim_ends(s);
    let t = seq![' '] + s;
    assert(t[1] == s[0]);
    lemma_leading_blanks_unique(t, 1);
    assert(t.skip(1) =~= s);
    assert(s.last() == s[s.len() - 1]);
    lemma_trailing_blanks_unique(s, 0);
    assert(s.take(s.len() as int) =~= s);
}

/// Taking a character out of two texts in a row takes it out of each.
pub proof fn lemma_without_concat(a: Seq<char>, b: Seq<char>, c: char)
    ensures
        without_char(a + b, c) == without_char(a, c) + without_char(b, c),
    decreases b.len(),
{
    if b.len() == 0 {
        assert(a + b =~= a);
        assert(without_char(a, c) + without_char(b, c) =~= without_char(a, c));
    } else {
        assert((a + b).drop_last() =~= a + b.drop_last());
        assert((a + b).last() == b.last());
        lemma_without_concat(a, b.drop_last(), c);
        if b.last() == c {
        } else {
            assert(without_char(a + b, c) =~= without_char(a, c) + without_char(b, c));
        }
    }
}

/// Taking a character out of a text of one character.
pub proof fn lemma_without_single(x: char, c: char)
    ensures
        without_char(seq![x], c) == if x == c {
            Seq::<char>::empty()
        } else {
            seq![x]
        },
{
    assert(seq![x].drop_last() =~= Seq::<char>::empty());
    assert(without_char(Seq::<char>::empty(), c) =~= Seq::<char>::empty());
    assert(seq![x].last() == x);
    if x != c {
        assert(Seq::<char>::empty().push(x) =~= seq![x]);
    }
}

/// A content line as loading sees it: not empty, without blanks around it,
/// and no comment.
pub open spec fn clean_line(line: Seq<char>) -> bool {
    &&& line.len() > 0
    &&& trim(line) == line
    &&& !(line[0] == '#' || line[0] == ';')
}

/// A line as a file gives it back: clean, without line feed, and not ending
/// with a carriage return.
pub open spec fn stable_line(line: Seq<char>) -> bool {
    clean_line(line) && !line.contains('\n') && line.last() != '\r'
}

/// The content lines of two runs of lines are those of the first followed by
/// those of the second.
pub proof fn lemma_sanitize_concat(a: Seq<Seq<char>>, b: Seq<Seq<char>>)
    ensures
        sanitize(a + b) == sanitize(a) + sanitize(b),
    decreases b.len(),
{
    if b.len() == 0 {
        assert(a + b =~= a);
        assert(sanitize(a) + sanitize(b) =~= sanitize(a));
    } else {
        assert((a + b).drop_last() =~= a + b.drop_last());
        assert((a + b).last() == b.last());
        lemma_sanitize_concat(a, b.drop_last());
        assert(sanitize(a + b) =~= sanitize(a) + sanitize(b));
    }
}

/// Clean lines are their own content lines.
pub proof fn lemma_sanitize_clean(all: Seq<Seq<char>>)
    requires
        forall|i: int| 0 <= i < all.len() ==> clean_line(#[trigger] all[i]),
    ensures
        sanitize(all) == all,
    decreases all.len(),
{
    if all.len() > 0 {
        assert(clean_line(all[all.len() - 1]));
        assert forall|i: int| 0 <= i < all.drop_last().len() implies clean_line(
            #[trigger] all.drop_last()[i],
        ) by {
            assert(all.drop_last()[i] == all[i]);
        }
        lemma_sanitize_clean(all.drop_last());
        assert(all.drop_last().push(all.last()) =~= all);
    }
}

/// Content lines are clean, and each is the trimmed form of one of the lines
/// they were taken from.
pub proof fn lemma_sanitize_yields_clean(all: Seq<Seq<char>>)
    ensures
        forall|i: int|
            0 <= i < sanitize(all).len() ==> clean_line(#[trigger] sanitize(all)[i]) && exists|
                j: int,
            | 0 <= j < all.len() && sanitize(all)[i] == trim(#[trigger] all[j]),
    decreases all.len(),
{
    if all.len() > 0 {
        lemma_sanitize_yields_clean(all.drop_last());
        let head = sanitize(all.drop_last());
        lemma_trim_idempotent(all.last());
        assert forall|i: int| 0 <= i < sanitize(all).len() implies clean_line(
            #[trigger] sanitize(all)[i],
        ) && exists|j: int| 0 <= j < all.len() && sanitize(all)[i] == trim(#[trigger] all[j]) by {
            if i < head.len() {
                assert(sanitize(all)[i] == head[i]);
                let j = choose|j: int|
                    0 <= j < all.drop_last().len() && head[i] == trim(
                        #[trigger] all.drop_last()[j],
                    );
                assert(all.drop_last()[j] == all[j]);
            } else {
                assert(sanitize(all)[i] == trim(all[all.len() - 1]));
            }
        }
    }
}

/// The content lines of a text are clean and hold no line feed.
pub proof fn lemma_content_lines_clean(contents: Seq<char>)
    ensures
        forall|i: int|
            0 <= i < content_lines(contents).len() ==> clean_line(
                #[trigger] content_lines(contents)[i],
            ) && !content_lines(contents)[i].contains('\n'),
{
    let all = lines(contents);
    lemma_sanitize_yields_clean(all);
    lemma_lines_hold_no_line_feed(contents);
    assert forall|i: int| 0 <= i < content_lines(contents).len() implies !(
    #[trigger] content_lines(contents)[i]).contains('\n') by {
        let j = choose|j: int|
            0 <= j < all.len() && content_lines(contents)[i] == trim(#[trigger] all[j]);
        lemma_trim_ends(all[j]);
    }
}

/// The text of non-empty lines joined by line feeds is not empty and ends
/// with the last character of the last line.
pub proof fn lemma_join_last(all: Seq<Seq<char>>)
    requires
        all.len() > 0,
        forall|i: int| 0 <= i < all.len() ==> (#[trigger] all[i]).len() > 0,
    ensures
        join(all, line_feed()).len() > 0,
        join(all, line_feed()).last() == all.last().last(),
{
    if all.len() > 1 {
        assert(all[all.len() - 1].len() > 0);
    } else {
        assert(all[0].len() > 0);
    }
}

/// The lines, each without the carriage return at its end.
pub open spec fn without_returns(all: Seq<Seq<char>>) -> Seq<Seq<char>> {
    Seq::new(all.len(), |i: int| strip_cr(all[i]))
}

/// Lines that are not empty and hold no line feed come back as the lines of
/// their text joined by line feeds, each without the carriage return at its
/// end.
pub proof fn lemma_lines_of_join(all: Seq<Seq<char>>)
    requires
        forall|i: int|
            0 <= i < all.len() ==> (#[trigger] all[i]).len() > 0 && !all[i].contains('\n'),
    ensures
        lines(join(all, line_feed())) == without_returns(all),
    decreases all.len(),
{
    if all.len() == 0 {
        assert(lines(join(all, line_feed())) =~= without_returns(all));
    } else if all.len() == 1 {
        lemma_lines_single(all[0]);
        assert(seq![strip_cr(all[0])] =~= without_returns(all));
    } else {
        let head = all.drop_last();
        let last = all.last();
        assert(last == all[all.len() - 1]);
        assert forall|i: int| 0 <= i < head.len() implies (#[trigger] head[i]).len() > 0
            && !head[i].contains('\n') by {
            assert(head[i] == all[i]);
        }
        lemma_lines_of_join(head);
        let j = join(head, line_feed());
        lemma_join_last(head);
        assert(j.last() != '\n') by {
            let l = head.last();
            assert(l == all[all.len() - 2]);
            if l.last() == '\n' {
                assert(l[l.len() - 1] == '\n');
                assert(l.contains('\n'));
            }
        }
        assert(j + line_feed() =~= j.push('\n'));
        lemma_lines_push_line_feed(j);
        lemma_lines_concat(j.push('\n'), last);
        lemma_lines_single(last);
        assert(join(all, line_feed()) =~= j.push('\n') + last);
        assert(without_returns(head) + seq![strip_cr(last)] =~= without_returns(all));
    }
}

/// Stable lines written with line feeds between them are the content lines
/// of what was written.
pub proof fn lemma_stable_lines_load(all: Seq<Seq<char>>)
    requires
        forall|i: int| 0 <= i < all.len() ==> stable_line(#[trigger] all[i]),
    ensures
        content_lines(join(all, line_feed())) == all,
{
    assert forall|i: int| 0 <= i < all.len() implies (#[trigger] all[i]).len() > 0
        && !all[i].contains('\n') by {
        assert(stable_line(all[i]));
    }
    lemma_lines_of_join(all);
    assert(without_returns(all) =~= all) by {
        assert forall|i: int| 0 <= i < all.len() implies strip_cr(#[trigger] all[i]) == all[i] by {
            assert(stable_line(all[i]));
        }
    }
    assert forall|i: int| 0 <= i < all.len() implies clean_line(#[trigger] all[i]) by {
        assert(stable_line(all[i]));
    }
    lemma_sanitize_clean(all);
}

/// The content lines written with line feeds between them load as the text
/// they were taken from, provided none of them ends with a carriage return.
pub proof fn lemma_rewrite_loads(contents: Seq<char>)
    requires
        !holds_carriage_return(contents),
    ensures
        content_lines(join(content_lines(contents), line_feed())) == content_lines(contents),
        load_text(join(content_lines(contents), line_feed())) == load_text(contents),
{
    let content = content_lines(contents);
    lemma_content_lines_clean(contents);
    assert forall|i: int| 0 <= i < content.len() implies stable_line(#[trigger] content[i]) by {
        assert(clean_line(content[i]));
    }
    lemma_stable_lines_load(content);
}

/// A content line as it is read again after it was written with a line feed
/// behind it: without the carriage return at its end, and then without the
/// blanks around it.
pub open spec fn reread(line: Seq<char>) -> Seq<char> {
    trim(strip_cr(line))
}

/// The lines, each as it is read again.
pub open spec fn reread_lines(all: Seq<Seq<char>>) -> Seq<Seq<char>> {
    Seq::new(all.len(), |i: int| reread(all[i]))
}

/// Whether loading reads the content line: a header gives a name, any other
/// line gives a property.
pub open spec fn readable(line: Seq<char>) -> bool {
    if is_header(line) {
        header_name(line) is Ok
    } else {
        property_of(line) is Ok
    }
}

/// A clean line that loading reads is read again as the same header, or as
/// a property line if it was one.
pub proof fn lemma_reread_line(line: Seq<char>)
    requires
        clean_line(line),
        readable(line),
    ensures
        is_header(line) ==> reread(line) == line,
        !is_header(line) ==> !is_header(reread(line)) && property_of(reread(line)) is Ok,
        !is_empty_line_text(strip_cr(line)),
        !is_comment_line_text(strip_cr(line)),
{
    let s = strip_cr(line);
    if is_header(line) {
        assert(line.last() == ']');
        assert(s == line);
    } else {
        let i = first_index(line, '=');
        lemma_first_index(line, '=');
        assert(line[i] == '=');
        if line.last() == '\r' {
            assert(line[line.len() - 1] == '\r');
            assert(s[i] == line[i]);
        }
        assert(s[i] == '=');
        lemma_trim_ends(line);
        assert(s[0] == line[0]);
        lemma_leading_blanks_unique(s, 0);
        let t = trim_start(s);
        assert(t =~= s);
        lemma_trailing_blanks(t);
        let n = trailing_blanks(t);
        if t.len() - n <= i {
            assert(is_blank(t[i]));
        }
        let r = reread(line);
        assert(r[i] == '=');
        assert(r[0] == line[0]);
        lemma_first_index(r, '=');
        if first_index(r, '=') == r.len() {
            assert(r[i] != '=');
        }
    }
}

/// Lines that are read again as content lines are the content lines of the
/// lines without their carriage returns.
pub proof fn lemma_sanitize_reread(all: Seq<Seq<char>>)
    requires
        forall|i: int|
            0 <= i < all.len() ==> !is_empty_line_text(strip_cr(#[trigger] all[i]))
                && !is_comment_line_text(strip_cr(all[i])),
    ensures
        sanitize(without_returns(all)) == reread_lines(all),
    decreases all.len(),
{
    if all.len() == 0 {
        assert(sanitize(without_returns(all)) =~= reread_lines(all));
    } else {
        let head = all.drop_last();
        assert forall|i: int| 0 <= i < head.len() implies !is_empty_line_text(
            strip_cr(#[trigger] head[i]),
        ) && !is_comment_line_text(strip_cr(head[i])) by {
            assert(head[i] == all[i]);
        }
        lemma_sanitize_reread(head);
        let last = all[all.len() - 1];
        assert(without_returns(all).drop_last() =~= without_returns(head));
        assert(without_returns(all).last() == strip_cr(last));
        assert(reread_lines(head).push(reread(last)) =~= reread_lines(all));
    }
}

// ---------------------------------------------------------------------------
// The lines of a section
// ---------------------------------------------------------------------------
/// The header line of the section called `name`.
pub open spec fn header_line(name: Seq<char>) -> Seq<char> {
    seq!['['] + name + seq![']']
}

/// The line that saving writes for a property.
pub open spec fn written_line(p: PropertyModel) -> Seq<char> {
    p.key + seq![' ', '=', ' '] + p.value
}

/// The lines that saving writes for a sequence of properties.
pub open spec fn written_lines(props: Seq<PropertyModel>) -> Seq<Seq<char>> {
    Seq::new(props.len(), |i: int| written_line(props[i]))
}

/// The content line of a property: the line that saving writes, without the
/// blanks around it.
pub open spec fn property_line(p: PropertyModel) -> Seq<char> {
    trim(written_line(p))
}

/// The content lines of a sequence of properties.
pub open spec fn property_lines(props: Seq<PropertyModel>) -> Seq<Seq<char>> {
    Seq::new(props.len(), |i: int| property_line(props[i]))
}

/// The content lines of the section of a profile.
pub open spec fn section_lines(profile: ProfileModel) -> Seq<Seq<char>> {
    seq![header_line(profile.name)] + property_lines(profile.properties)
}

/// The key of a plain property with the blank that follows it where the key
/// is not empty.
pub open spec fn key_part(p: PropertyModel) -> Seq<char> {
    if p.key.len() > 0 {
        p.key.push(' ')
    } else {
        p.key
    }
}

/// The value of a plain property with the blank that leads it where the
/// value is not empty.
pub open spec fn value_part(p: PropertyModel) -> Seq<char> {
    if p.value.len() > 0 {
        seq![' '] + p.value
    } else {
        p.value
    }
}

/// The header line of a plain name is a stable header line that gives the
/// name back.
pub proof fn lemma_header_line(name: Seq<char>)
    requires
        plain_name(name),
    ensures
        is_header(header_line(name)),
        header_name(header_line(name)) == Ok::<Seq<char>, ProfileError>(name),
        stable_line(header_line(name)),
{
    let line = header_line(name);
    assert(line[0] == '[');
    assert(line.last() == ']');
    lemma_trim_fixed(line);
    lemma_without_concat(seq!['['] + name, seq![']'], '[');
    lemma_without_concat(seq!['['], name, '[');
    lemma_without_single('[', '[');
    lemma_without_single(']', '[');
    lemma_without_absent(name, '[');
    let once = without_char(line, '[');
    assert(once =~= name + seq![']']);
    lemma_without_concat(name, seq![']'], ']');
    lemma_without_single(']', ']');
    lemma_without_absent(name, ']');
    assert(without_char(once, ']') =~= name);
    assert(!line.contains('\n')) by {
        if line.contains('\n') {
            let j = choose|j: int| 0 <= j < line.len() && line[j] == '\n';
            if 0 < j < line.len() - 1 {
                assert(name[j - 1] == '\n');
            }
        }
    }
}

/// The content line of a plain property is its key and its value around the
/// `=`, with a blank between each of them and the `=` unless that one is
/// empty.
pub proof fn lemma_property_line_form(p: PropertyModel)
    requires
        plain_property(p),
    ensures
        property_line(p) == key_part(p) + seq!['='] + value_part(p),
{
    let w = written_line(p);
    lemma_trim_ends(p.key);
    lemma_trim_ends(p.value);
    let a: int = if p.key.len() > 0 {
        0
    } else {
        1
    };
    let b: int = if p.value.len() > 0 {
        0
    } else {
        1
    };
    if p.key.len() > 0 {
        assert(w[0] == p.key[0]);
    } else {
        assert(w[0] == ' ');
        assert(w[1] == '=');
    }
    lemma_leading_blanks_unique(w, a);
    let t = w.skip(a);
    assert(t =~= key_part(p) + seq!['=', ' '] + p.value);
    if p.value.len() > 0 {
        assert(t.last() == p.value.last());
    } else {
        assert(t[t.len() - 1] == ' ');
        assert(t[t.len() - 2] == '=');
    }
    lemma_trailing_blanks_unique(t, b);
    assert(t.take(t.len() - b) =~= key_part(p) + seq!['='] + value_part(p));
}

/// The content line of a plain property is a stable line, no header, that
/// gives the property back; the line that saving writes for it is neither
/// empty nor a comment, holds no line feed and does not end with a carriage
/// return.
pub proof fn lemma_property_line(p: PropertyModel)
    requires
        plain_property(p),
    ensures
        !is_header(property_line(p)),
        property_of(property_line(p)) == Ok::<PropertyModel, ProfileError>(p),
        stable_line(property_line(p)),
        written_line(p).len() > 0,
        !written_line(p).contains('\n'),
        written_line(p).last() != '\r',
        !is_empty_line_text(written_line(p)),
        !is_comment_line_text(written_line(p)),
{
    let w = written_line(p);
    let line = property_line(p);
    let k = key_part(p);
    let v = value_part(p);
    lemma_property_line_form(p);
    lemma_trim_ends(p.key);
    lemma_trim_ends(p.value);
    lemma_trim_idempotent(w);
    let i = k.len() as int;
    assert(line[i] == '=');
    assert forall|j: int| 0 <= j < i implies line[j] != '=' by {
        assert(line[j] == k[j]);
        if j < p.key.len() {
            assert(k[j] == p.key[j]);
            assert(p.key.contains(p.key[j]));
        }
    }
    lemma_first_index_unique(line, '=', i);
    assert(line.take(i) =~= k);
    if p.key.len() > 0 {
        lemma_trim_blank_behind(p.key);
        assert(line[0] == p.key[0]);
    } else {
        lemma_trim_fixed(p.key);
        assert(line[0] == '=');
    }
    let rest = line.skip(i + 1);
    assert(rest =~= v);
    assert forall|j: int| 0 <= j < rest.len() implies rest[j] != '=' by {
        if j > 0 {
            assert(rest[j] == p.value[j - 1]);
            assert(p.value.contains(p.value[j - 1]));
        }
    }
    lemma_first_index_unique(rest, '=', rest.len() as int);
    assert(rest.take(rest.len() as int) =~= rest);
    if p.value.len() > 0 {
        lemma_trim_blank_before(p.value);
        assert(line.last() == p.value.last());
        assert(w.last() == p.value.last());
    } else {
        lemma_trim_fixed(p.value);
        assert(line.last() == '=');
        assert(w.last() == ' ');
    }
    assert(!w.contains('\n')) by {
        if w.contains('\n') {
            let j = choose|j: int| 0 <= j < w.len() && w[j] == '\n';
            if j < p.key.len() {
                assert(p.key[j] == '\n');
            } else if j >= p.key.len() + 3 {
                assert(p.value[j - p.key.len() - 3] == '\n');
            }
        }
    }
    assert(!line.contains('\n')) by {
        lemma_trim_ends(w);
    }
}

/// The content lines of the section of a plain profile are stable.
pub proof fn lemma_section_lines_stable(profile: ProfileModel)
    requires
        plain_profile(profile),
    ensures
        forall|i: int|
            0 <= i < section_lines(profile).len() ==> stable_line(
                #[trigger] section_lines(profile)[i],
            ),
{
    lemma_header_line(profile.name);
    assert forall|i: int| 0 <= i < section_lines(profile).len() implies stable_line(
        #[trigger] section_lines(profile)[i],
    ) by {
        if i > 0 {
            assert(section_lines(profile)[i] == property_line(profile.properties[i - 1]));
            lemma_property_line(profile.properties[i - 1]);
        }
    }
}

/// The text of the section of a plain profile has the header line and the
/// lines written for its properties as its lines, and these have the content
/// lines of the section as their content lines.
pub proof fn lemma_section_text_lines(name: Seq<char>, props: Seq<PropertyModel>)
    requires
        plain_name(name),
        forall|i: int| 0 <= i < props.len() ==> plain_property(#[trigger] props[i]),
    ensures
        ({
            let text = header_line(name) + property_lines_text(props);
            &&& text.len() > 0
            &&& text.last() != '\n'
            &&& lines(text) == seq![header_line(name)] + written_lines(props)
            &&& sanitize(lines(text)) == seq![header_line(name)] + property_lines(props)
        }),
    decreases props.len(),
{
    let text = header_line(name) + property_lines_text(props);
    lemma_header_line(name);
    if props.len() == 0 {
        assert(text =~= header_line(name));
        lemma_lines_single(header_line(name));
        assert(seq![header_line(name)] + written_lines(props) =~= seq![header_line(name)]);
        assert(seq![header_line(name)] + property_lines(props) =~= seq![header_line(name)]);
        lemma_sanitize_clean(seq![header_line(name)]);
    } else {
        let head = props.drop_last();
        let last = props.last();
        assert(last == props[props.len() - 1]);
        assert forall|i: int| 0 <= i < head.len() implies plain_property(#[trigger] head[i]) by {
            assert(head[i] == props[i]);
        }
        lemma_section_text_lines(name, head);
        let before = header_line(name) + property_lines_text(head);
        lemma_property_line(last);
        let line = written_line(last);
        assert(text =~= before.push('\n') + line);
        lemma_lines_push_line_feed(before);
        lemma_lines_concat(before.push('\n'), line);
        lemma_lines_single(line);
        assert(text.last() == line.last());
        assert(line.last() != '\n') by {
            if line.last() == '\n' {
                assert(line[line.len() - 1] == '\n');
            }
        }
        assert(written_lines(props) =~= written_lines(head).push(line));
        let raw = seq![header_line(name)] + written_lines(props);
        assert(lines(text) =~= raw);
        assert(raw.drop_last() =~= seq![header_line(name)] + written_lines(head));
        assert(raw.last() == line);
        assert(property_lines(props) =~= property_lines(head).push(property_line(last)));
        assert(sanitize(raw) =~= seq![header_line(name)] + property_lines(props));
    }
}

/// Behind any text, what saving appends adds the content lines of the
/// section to the content lines.
pub proof fn lemma_content_lines_after_save(profile: ProfileModel, contents: Seq<char>)
    requires
        plain_profile(profile),
    ensures
        content_lines(contents + appended_text(profile, contents)) == content_lines(contents)
            + section_lines(profile),
{
    let section = section_text(profile);
    lemma_section_text_lines(profile.name, profile.properties);
    assert(section =~= header_line(profile.name) + property_lines_text(profile.properties));
    let lead = if contents.len() > 0 && contents.last() != '\n' {
        contents.push('\n')
    } else {
        contents
    };
    assert(contents + appended_text(profile, contents) =~= lead + section);
    if contents.len() > 0 && contents.last() != '\n' {
        lemma_lines_push_line_feed(contents);
    }
    lemma_lines_concat(lead, section);
    lemma_sanitize_concat(lines(contents), lines(section));
}

// ---------------------------------------------------------------------------
// Loading
// ---------------------------------------------------------------------------
/// Loading two runs of lines in a row is loading the second from where the
/// first ended.
pub proof fn lemma_run_concat(state: LoadState, a: Seq<Seq<char>>, b: Seq<Seq<char>>)
    ensures
        state.run(a + b) == match state.run(a) {
            Ok(s) => s.run(b),
            Err(e) => Err(e),
        },
    decreases b.len(),
{
    if b.len() == 0 {
        assert(a + b =~= a);
    } else {
        assert((a + b).drop_last() =~= a + b.drop_last());
        assert((a + b).last() == b.last());
        lemma_run_concat(state, a, b.drop_last());
    }
}

/// Loading one line is taking one step.
pub proof fn lemma_run_single(state: LoadState, line: Seq<char>)
    ensures
        state.run(seq![line]) == state.step(line),
{
    assert(seq![line].drop_last() =~= Seq::<Seq<char>>::empty());
    assert(seq![line].last() == line);
    assert(state.run(seq![line].drop_last()) == Ok::<LoadState, ProfileError>(state));
}

/// Properties with distinct keys are collected as they are.
pub proof fn lemma_collect_distinct(props: Seq<PropertyModel>)
    requires
        distinct(property_keys(props)),
    ensures
        collect_properties(props) == props,
    decreases props.len(),
{
    if props.len() > 0 {
        let head = props.drop_last();
        assert(property_keys(head) =~= property_keys(props).drop_last());
        lemma_collect_distinct(head);
        let keys = property_keys(head);
        let last = props.last();
        assert(property_keys(props)[props.len() - 1] == last.key);
        assert forall|j: int| 0 <= j < keys.len() implies keys[j] != last.key by {
            assert(property_keys(props)[j] == keys[j]);
        }
        lemma_first_index_unique(keys, last.key, keys.len() as int);
        assert(head.push(last) =~= props);
    }
}

/// Loading the lines of plain properties into a section that has none yet
/// collects them.
pub proof fn lemma_run_property_lines(state: LoadState, props: Seq<PropertyModel>)
    requires
        state.properties.len() == 0,
        forall|i: int| 0 <= i < props.len() ==> plain_property(#[trigger] props[i]),
    ensures
        state.run(property_lines(props)) == Ok::<LoadState, ProfileError>(
            LoadState {
                profiles: state.profiles,
                duplicates: state.duplicates,
                current: state.current,
                properties: collect_properties(props),
            },
        ),
    decreases props.len(),
{
    if props.len() == 0 {
        assert(state.properties =~= Seq::<PropertyModel>::empty());
        assert(collect_properties(props) =~= Seq::<PropertyModel>::empty());
    } else {
        let head = props.drop_last();
        let last = props.last();
        assert(last == props[props.len() - 1]);
        assert forall|i: int| 0 <= i < head.len() implies plain_property(#[trigger] head[i]) by {
            assert(head[i] == props[i]);
        }
        lemma_run_property_lines(state, head);
        assert(property_lines(props).drop_last() =~= property_lines(head));
        assert(property_lines(props).last() == property_line(last));
        lemma_property_line(last);
    }
}

/// Loading the section of a plain profile commits what was open and leaves
/// the section open with the properties of the profile.
pub proof fn lemma_run_section(state: LoadState, profile: ProfileModel)
    requires
        plain_profile(profile),
        profile.wf(),
        state.commit() is Ok,
    ensures
        state.run(section_lines(profile)) == Ok::<LoadState, ProfileError>(
            LoadState {
                profiles: state.commit()->Ok_0.profiles,
                duplicates: state.commit()->Ok_0.duplicates,
                current: Some(profile.name),
                properties: profile.properties,
            },
        ),
{
    let header = header_line(profile.name);
    lemma_header_line(profile.name);
    lemma_run_single(state, header);
    lemma_run_concat(state, seq![header], property_lines(profile.properties));
    let opened = state.step(header)->Ok_0;
    assert(opened.properties.len() == 0);
    lemma_run_property_lines(opened, profile.properties);
    lemma_collect_distinct(profile.properties);
}

/// A profile pushed behind the others is found under its name, and the
/// others are found as before.
pub proof fn lemma_store_push(profiles: Seq<ProfileModel>, profile: ProfileModel)
    requires
        !store_has(profiles, profile.name),
    ensures
        put_profile(profiles, profile) == profiles.push(profile),
        store_has(profiles.push(profile), profile.name),
        store_get(profiles.push(profile), profile.name) == profile,
        forall|n: Seq<char>|
            n != profile.name ==> (store_has(profiles.push(profile), n) <==> store_has(
                profiles,
                n,
            )),
        forall|n: Seq<char>|
            n != profile.name && store_has(profiles, n) ==> store_get(
                profiles.push(profile),
                n,
            ) == store_get(profiles, n),
{
    let names = profile_names(profiles);
    let after = profiles.push(profile);
    let names2 = profile_names(after);
    assert(names2 =~= names.push(profile.name));
    lemma_first_index(names, profile.name);
    lemma_first_index_unique(names2, profile.name, names.len() as int);
    assert forall|n: Seq<char>| n != profile.name implies (store_has(after, n) <==> store_has(
        profiles,
        n,
    )) && (store_has(profiles, n) ==> store_get(after, n) == store_get(profiles, n)) by {
        lemma_first_index(names, n);
        let i = first_index(names, n);
        if i < names.len() {
            lemma_first_index_unique(names2, n, i);
        } else {
            lemma_first_index_unique(names2, n, names2.len() as int);
        }
    }
}

/// A store with a profile put in holds that name and the names it held.
pub proof fn lemma_put_profile_names(profiles: Seq<ProfileModel>, profile: ProfileModel)
    ensures
        forall|n: Seq<char>|
            store_has(put_profile(profiles, profile), n) <==> (store_has(profiles, n) || n
                == profile.name),
{
    let names = profile_names(profiles);
    let i = first_index(names, profile.name);
    lemma_first_index(names, profile.name);
    let names2 = profile_names(put_profile(profiles, profile));
    if 0 <= i < profiles.len() {
        assert(names2 =~= names);
    } else {
        assert(names2 =~= names.push(profile.name));
    }
    assert forall|n: Seq<char>|
        store_has(put_profile(profiles, profile), n) <==> (store_has(profiles, n) || n
            == profile.name) by {
        lemma_has_item(names, n);
        lemma_has_item(names2, n);
        if names.contains(n) {
            let j = choose|j: int| 0 <= j < names.len() && names[j] == n;
            assert(names2[j] == n);
        }
        if names2.contains(n) {
            let j = choose|j: int| 0 <= j < names2.len() && names2[j] == n;
            if j < names.len() {
                assert(names[j] == n);
            }
        }
        if n == profile.name && !(0 <= i < profiles.len()) {
            assert(names2[names.len() as int] == n);
        }
    }
}

/// Whether a loading state knows the name: as a committed profile or as the
/// open section.
pub open spec fn state_knows(state: LoadState, name: Seq<char>) -> bool {
    store_has(state.profiles, name) || state.current == Some(name)
}

/// Every line that a loading state has taken was read: a header gave a name
/// that the state knows, any other line gave a property.
pub open spec fn lines_read(state: LoadState, content: Seq<Seq<char>>) -> bool {
    forall|i: int|
        0 <= i < content.len() ==> if is_header(#[trigger] content[i]) {
            header_name(content[i]) is Ok && state_knows(state, header_name(content[i])->Ok_0)
        } else {
            property_of(content[i]) is Ok
        }
}

/// A commit keeps the names that the state knows and adds none.
pub proof fn lemma_commit_knows(state: LoadState)
    requires
        state.commit() is Ok,
    ensures
        forall|n: Seq<char>|
            store_has(state.commit()->Ok_0.profiles, n) <==> state_knows(state, n),
        state.current matches Some(n) ==> valid_profile_name(n),
{
    if state.current is Some {
        lemma_put_profile_names(
            state.profiles,
            ProfileModel { name: state.current->0, properties: state.properties },
        );
    }
}

/// Where loading did not fail, every line was read.
pub proof fn lemma_run_reads(content: Seq<Seq<char>>)
    requires
        LoadState::start().run(content) is Ok,
    ensures
        lines_read(LoadState::start().run(content)->Ok_0, content),
    decreases content.len(),
{
    if content.len() > 0 {
        let head = content.drop_last();
        let line = content.last();
        let before = LoadState::start().run(head)->Ok_0;
        let after = LoadState::start().run(content)->Ok_0;
        lemma_run_reads(head);
        if is_header(line) {
            lemma_commit_knows(before);
        }
        assert forall|i: int| 0 <= i < content.len() implies if is_header(#[trigger] content[i]) {
            header_name(content[i]) is Ok && state_knows(after, header_name(content[i])->Ok_0)
        } else {
            property_of(content[i]) is Ok
        } by {
            if i < head.len() {
                assert(head[i] == content[i]);
                if is_header(content[i]) {
                    assert(state_knows(before, header_name(head[i])->Ok_0));
                }
            }
        }
    }
}

/// Where a text loads, every header among its content lines names a profile
/// of the loaded store, and every other content line gives a property.
pub proof fn lemma_loaded_lines(content: Seq<Seq<char>>)
    requires
        load_lines(content) is Ok,
    ensures
        forall|i: int|
            0 <= i < content.len() ==> if is_header(#[trigger] content[i]) {
                header_name(content[i]) is Ok && store_has(
                    load_lines(content)->Ok_0.profiles,
                    header_name(content[i])->Ok_0,
                )
            } else {
                property_of(content[i]) is Ok
            },
{
    let state = LoadState::start().run(content)->Ok_0;
    lemma_run_reads(content);
    lemma_commit_knows(state);
}

/// Every profile of a loaded store has a valid name.
pub proof fn lemma_loaded_names_valid(content: Seq<Seq<char>>)
    requires
        LoadState::start().run(content) is Ok,
    ensures
        forall|n: Seq<char>|
            store_has(LoadState::start().run(content)->Ok_0.profiles, n) ==> valid_profile_name(n),
    decreases content.len(),
{
    let after = LoadState::start().run(content)->Ok_0;
    if content.len() == 0 {
        assert(profile_names(LoadState::start().profiles) =~= Seq::<Seq<char>>::empty());
        assert forall|n: Seq<char>| store_has(after.profiles, n) implies valid_profile_name(n) by {}
    } else {
        let before = LoadState::start().run(content.drop_last())->Ok_0;
        lemma_loaded_names_valid(content.drop_last());
        if is_header(content.last()) {
            lemma_commit_knows(before);
            assert forall|n: Seq<char>| store_has(after.profiles, n) implies valid_profile_name(
                n,
            ) by {
                assert(state_knows(before, n));
            }
        } else {
            assert(after.profiles == before.profiles);
        }
    }
}

/// Two loading states that hold the same names in the same order and have
/// the same section open.
pub open spec fn same_names(a: LoadState, b: LoadState) -> bool {
    profile_names(a.profiles) == profile_names(b.profiles) && a.current == b.current
}

/// Committing keeps two states with the same names that way.
pub proof fn lemma_commit_same_names(a: LoadState, b: LoadState)
    requires
        same_names(a, b),
        a.commit() is Ok,
    ensures
        b.commit() is Ok,
        profile_names(a.commit()->Ok_0.profiles) == profile_names(b.commit()->Ok_0.profiles),
{
    if a.current is Some {
        let name = a.current->0;
        let pa = ProfileModel { name, properties: a.properties };
        let pb = ProfileModel { name, properties: b.properties };
        let names = profile_names(a.profiles);
        let i = first_index(names, name);
        lemma_first_index(names, name);
        if 0 <= i < names.len() {
            assert(profile_names(put_profile(a.profiles, pa)) =~= names);
            assert(profile_names(put_profile(b.profiles, pb)) =~= names);
        } else {
            assert(profile_names(put_profile(a.profiles, pa)) =~= names.push(name));
            assert(profile_names(put_profile(b.profiles, pb)) =~= names.push(name));
        }
    }
}

/// Lines that agree in their headers and are property lines wherever the
/// others are load into the same names.
pub proof fn lemma_same_headers_same_names(a: Seq<Seq<char>>, b: Seq<Seq<char>>)
    requires
        a.len() == b.len(),
        forall|i: int|
            0 <= i < a.len() ==> if is_header(#[trigger] a[i]) {
                b[i] == a[i]
            } else {
                !is_header(b[i]) && property_of(b[i]) is Ok
            },
        LoadState::start().run(a) is Ok,
    ensures
        LoadState::start().run(b) is Ok,
        same_names(LoadState::start().run(a)->Ok_0, LoadState::start().run(b)->Ok_0),
    decreases a.len(),
{
    if a.len() > 0 {
        let ha = a.drop_last();
        let hb = b.drop_last();
        assert forall|i: int| 0 <= i < ha.len() implies if is_header(#[trigger] ha[i]) {
            hb[i] == ha[i]
        } else {
            !is_header(hb[i]) && property_of(hb[i]) is Ok
        } by {
            assert(ha[i] == a[i]);
            assert(hb[i] == b[i]);
        }
        lemma_same_headers_same_names(ha, hb);
        let sa = LoadState::start().run(ha)->Ok_0;
        let sb = LoadState::start().run(hb)->Ok_0;
        assert(a.last() == a[a.len() - 1]);
        assert(b.last() == b[b.len() - 1]);
        if is_header(a.last()) {
            lemma_commit_same_names(sa, sb);
        }
    }
}

// ---------------------------------------------------------------------------
// Removing
// ---------------------------------------------------------------------------
/// The lines that stay of two runs of lines are those that stay of each.
pub proof fn lemma_surviving_concat(target: ProfileModel, a: Seq<Seq<char>>, b: Seq<Seq<char>>)
    requires
        surviving_lines(target, a) is Ok,
        surviving_lines(target, b) is Ok,
    ensures
        surviving_lines(target, a + b) == Ok::<Seq<Seq<char>>, ProfileError>(
            surviving_lines(target, a)->Ok_0 + surviving_lines(target, b)->Ok_0,
        ),
    decreases b.len(),
{
    if b.len() == 0 {
        assert(a + b =~= a);
        assert(surviving_lines(target, a)->Ok_0 + surviving_lines(target, b)->Ok_0
            =~= surviving_lines(target, a)->Ok_0);
    } else {
        assert((a + b).drop_last() =~= a + b.drop_last());
        assert((a + b).last() == b.last());
        lemma_surviving_concat(target, a, b.drop_last());
        let x = surviving_lines(target, a)->Ok_0;
        let y = surviving_lines(target, b.drop_last())->Ok_0;
        assert((x + y).push(b.last()) =~= x + y.push(b.last()));
    }
}

/// Lines that can be read and are none of `target` all stay.
pub proof fn lemma_surviving_all(target: ProfileModel, content: Seq<Seq<char>>)
    requires
        forall|i: int|
            0 <= i < content.len() ==> drops_line(target, #[trigger] content[i]) == Ok::<
                bool,
                ProfileError,
            >(false),
    ensures
        surviving_lines(target, content) == Ok::<Seq<Seq<char>>, ProfileError>(content),
    decreases content.len(),
{
    if content.len() > 0 {
        let head = content.drop_last();
        assert forall|i: int| 0 <= i < head.len() implies drops_line(target, #[trigger] head[i])
            == Ok::<bool, ProfileError>(false) by {
            assert(head[i] == content[i]);
        }
        lemma_surviving_all(target, head);
        assert(drops_line(target, content[content.len() - 1]) == Ok::<bool, ProfileError>(false));
        assert(head.push(content.last()) =~= content);
    }
}

/// Lines that are all of `target` all go.
pub proof fn lemma_surviving_none(target: ProfileModel, content: Seq<Seq<char>>)
    requires
        forall|i: int| 0 <= i < content.len() ==> line_of_target(target, #[trigger] content[i]),
    ensures
        surviving_lines(target, content) == Ok::<Seq<Seq<char>>, ProfileError>(
            Seq::<Seq<char>>::empty(),
        ),
    decreases content.len(),
{
    if content.len() > 0 {
        let head = content.drop_last();
        assert forall|i: int| 0 <= i < head.len() implies line_of_target(
            target,
            #[trigger] head[i],
        ) by {
            assert(head[i] == content[i]);
        }
        lemma_surviving_none(target, head);
        assert(line_of_target(target, content[content.len() - 1]));
    } else {
        assert(content =~= Seq::<Seq<char>>::empty());
    }
}

/// Where every line can be read, the lines of a profile can be taken out,
/// and every line that stays is one of the lines.
pub proof fn lemma_surviving_reads(target: ProfileModel, content: Seq<Seq<char>>)
    requires
        forall|i: int| 0 <= i < content.len() ==> drops_line(target, #[trigger] content[i]) is Ok,
    ensures
        surviving_lines(target, content) is Ok,
        forall|k: int|
            0 <= k < surviving_lines(target, content)->Ok_0.len() ==> exists|j: int|
                0 <= j < content.len() && (#[trigger] surviving_lines(target, content)->Ok_0[k])
                    == content[j],
    decreases content.len(),
{
    if content.len() > 0 {
        let head = content.drop_last();
        assert forall|i: int| 0 <= i < head.len() implies drops_line(target, #[trigger] head[i])
            is Ok by {
            assert(head[i] == content[i]);
        }
        lemma_surviving_reads(target, head);
        assert(drops_line(target, content[content.len() - 1]) is Ok);
        let kept0 = surviving_lines(target, head)->Ok_0;
        let kept1 = surviving_lines(target, content)->Ok_0;
        assert forall|k: int| 0 <= k < kept1.len() implies exists|j: int|
            0 <= j < content.len() && (#[trigger] kept1[k]) == content[j] by {
            if k < kept0.len() {
                assert(kept1[k] == kept0[k]);
                let j = choose|j: int| 0 <= j < head.len() && kept0[k] == head[j];
                assert(head[j] == content[j]);
            } else {
                assert(kept1[k] == content[content.len() - 1]);
            }
        }
    }
}

/// Removing a plain profile with distinct keys takes out every line of its
/// section.
pub proof fn lemma_section_goes(profile: ProfileModel)
    requires
        plain_profile(profile),
        profile.wf(),
    ensures
        surviving_lines(profile, section_lines(profile)) == Ok::<Seq<Seq<char>>, ProfileError>(
            Seq::<Seq<char>>::empty(),
        ),
{
    let section = section_lines(profile);
    lemma_header_line(profile.name);
    let keys = property_keys(profile.properties);
    assert forall|i: int| 0 <= i < section.len() implies line_of_target(
        profile,
        #[trigger] section[i],
    ) by {
        if i > 0 {
            let q = profile.properties[i - 1];
            assert(section[i] == property_line(q));
            lemma_property_line(q);
            assert(keys[i - 1] == q.key);
            assert forall|j: int| 0 <= j < i - 1 implies keys[j] != q.key by {}
            lemma_first_index_unique(keys, q.key, i - 1);
        }
    }
    lemma_surviving_none(profile, section);
}

/// How the state reached on all the lines and the state reached on the
/// lines that stay go together when the profile called `name` is removed:
/// the second does not know `name`, knows every other name exactly when the
/// first does, and its open section, unless it is the open section of the
/// first as well, has a valid name.
pub open spec fn related(all: LoadState, kept: LoadState, name: Seq<char>) -> bool {
    &&& !state_knows(kept, name)
    &&& forall|n: Seq<char>| n != name ==> (state_knows(kept, n) <==> state_knows(all, n))
    &&& kept.current matches Some(m) ==> kept.current == all.current || valid_profile_name(m)
}

/// Where the lines load and the lines of a profile can be taken out, the
/// lines that stay load too, and the two states go together.
pub proof fn lemma_removal_simulates(target: ProfileModel, content: Seq<Seq<char>>)
    requires
        surviving_lines(target, content) is Ok,
        LoadState::start().run(content) is Ok,
    ensures
        LoadState::start().run(surviving_lines(target, content)->Ok_0) is Ok,
        related(
            LoadState::start().run(content)->Ok_0,
            LoadState::start().run(surviving_lines(target, content)->Ok_0)->Ok_0,
            target.name,
        ),
    decreases content.len(),
{
    let start = LoadState::start();
    if content.len() == 0 {
        assert(profile_names(start.profiles) =~= Seq::<Seq<char>>::empty());
        assert forall|n: Seq<char>| !state_knows(start, n) by {}
    } else {
        let head = content.drop_last();
        let line = content.last();
        lemma_removal_simulates(target, head);
        let s0 = start.run(head)->Ok_0;
        let kept0 = surviving_lines(target, head)->Ok_0;
        let t0 = start.run(kept0)->Ok_0;
        let s1 = start.run(content)->Ok_0;
        let kept1 = surviving_lines(target, content)->Ok_0;
        let dropped = drops_line(target, line)->Ok_0;
        if is_header(line) {
            lemma_commit_knows(s0);
            let h = header_name(line)->Ok_0;
            if dropped {
                assert(kept1 == kept0);
                assert(h == target.name);
                assert forall|n: Seq<char>| n != target.name implies (state_knows(t0, n)
                    <==> state_knows(s1, n)) by {
                    assert(state_knows(t0, n) <==> state_knows(s0, n));
                    assert(store_has(s1.profiles, n) <==> state_knows(s0, n));
                }
                assert(related(s1, t0, target.name));
            } else {
                assert(kept1 == kept0.push(line));
                assert(kept1.drop_last() =~= kept0);
                assert(kept1.last() == line);
                assert(t0.commit() is Ok);
                lemma_commit_knows(t0);
                let t1 = start.run(kept1)->Ok_0;
                assert(t1 == t0.step(line)->Ok_0);
                assert(t1.current == Some(h));
                assert(s1.current == Some(h));
                assert forall|n: Seq<char>| n != target.name implies (state_knows(t1, n)
                    <==> state_knows(s1, n)) by {
                    assert(state_knows(t0, n) <==> state_knows(s0, n));
                    assert(store_has(t1.profiles, n) <==> state_knows(t0, n));
                    assert(store_has(s1.profiles, n) <==> state_knows(s0, n));
                }
                assert(!state_knows(t1, target.name)) by {
                    assert(store_has(t1.profiles, target.name) <==> state_knows(t0, target.name));
                }
                assert(related(s1, t1, target.name));
            }
        } else {
            assert(s1.profiles == s0.profiles && s1.current == s0.current);
            if dropped {
                assert(kept1 == kept0);
                assert forall|n: Seq<char>| n != target.name implies (state_knows(t0, n)
                    <==> state_knows(s1, n)) by {
                    assert(state_knows(t0, n) <==> state_knows(s0, n));
                }
                assert(related(s1, t0, target.name));
            } else {
                assert(kept1 == kept0.push(line));
                assert(kept1.drop_last() =~= kept0);
                assert(kept1.last() == line);
                let t1 = start.run(kept1)->Ok_0;
                assert(t1 == t0.step(line)->Ok_0);
                assert(t1.profiles == t0.profiles && t1.current == t0.current);
                assert forall|n: Seq<char>| n != target.name implies (state_knows(t1, n)
                    <==> state_knows(s1, n)) by {
                    assert(state_knows(t0, n) <==> state_knows(s0, n));
                }
                assert(related(s1, t1, target.name));
            }
        }
    }
}

} // verus!
