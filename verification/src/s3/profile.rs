//! The credential profile store: a text file of named sections, each a list
//! of `key = value` lines.
//!
//! Nothing here touches the file itself. Loading takes the file's text,
//! saving returns the text to append, and removing returns what is to become
//! of the file.

use crate::s3::credentials::Credentials;
use crate::text::{
    append_chars, buffers, chars_of, copy_range, distinct, find_from, first_index, has_item,
    join, lemma_first_index, lemma_first_index_unique, remove_char, string_of, trim, trimmed,
    views, without_char,
};
use crate::utils::validator::{check_profile_name, valid_profile_name};
use vstd::prelude::*;

verus! {

/// What can go wrong with a profile or with the text of the store.
#[derive(Clone, Copy, Debug, PartialEq, Eq, Structural)]
pub enum ProfileError {
    /// A profile name does not match the pattern for profile names.
    InvalidName,
    /// A profile of that name is in the store already.
    AlreadyExists,
    /// No profile of that name is in the store.
    NotFound,
    /// A line opens with `[` and does not close with `]`.
    MalformedHeader,
    /// A line that is no header holds no `=`.
    MalformedProperty,
    /// A section name occurs more than once. Loading reports this beside the
    /// profiles it returns and does not fail on it.
    DuplicateHeader,
}

impl ProfileError {
    /// The message shown for this error.
    pub open spec fn text(self) -> Seq<char> {
        match self {
            ProfileError::InvalidName =>
                "Profile name is not valid, it should be at least 2 characters long and only contains letters, numbers, - and _"@,
            ProfileError::AlreadyExists => "Profile already exists"@,
            ProfileError::NotFound => "Profile not found"@,
            ProfileError::MalformedHeader => "Profile definition must start with '[' and end with ']'"@,
            ProfileError::MalformedProperty => "Property definition must have a key and a value"@,
            ProfileError::DuplicateHeader => "Profile is duplicated"@,
        }
    }

    /// The message shown for this error.
    pub fn to_string(&self) -> (s: String)
        ensures
            s@ == self.text(),
    {
        match self {
            ProfileError::InvalidName => String::from_str(
                "Profile name is not valid, it should be at least 2 characters long and only contains letters, numbers, - and _",
            ),
            ProfileError::AlreadyExists => String::from_str("Profile already exists"),
            ProfileError::NotFound => String::from_str("Profile not found"),
            ProfileError::MalformedHeader => String::from_str(
                "Profile definition must start with '[' and end with ']'",
            ),
            ProfileError::MalformedProperty => String::from_str(
                "Property definition must have a key and a value",
            ),
            ProfileError::DuplicateHeader => String::from_str("Profile is duplicated"),
        }
    }
}

// ---------------------------------------------------------------------------
// Lines
// ---------------------------------------------------------------------------
/// `line` without the carriage return at its end, if it has one.
pub open spec fn strip_cr(line: Seq<char>) -> Seq<char> {
    if line.len() > 0 && line.last() == '\r' {
        line.drop_last()
    } else {
        line
    }
}

/// The lines of `s`. A line ends at a line feed or at the end of the text; a
/// carriage return directly before that end belongs to the line ending, which
/// is no part of the line.
pub open spec fn lines(s: Seq<char>) -> Seq<Seq<char>>
    decreases s.len(),
{
    if s.len() == 0 {
        Seq::<Seq<char>>::empty()
    } else {
        let i = first_index(s, '\n');
        if 0 <= i < s.len() {
            seq![strip_cr(s.take(i))] + lines(s.skip(i + 1))
        } else {
            seq![strip_cr(s)]
        }
    }
}

/// Whether `line` holds nothing but blanks.
pub open spec fn is_empty_line_text(line: Seq<char>) -> bool {
    trim(line).len() == 0
}

/// Whether the first character of `line` that is no blank opens a comment:
/// `#` or `;`.
pub open spec fn is_comment_line_text(line: Seq<char>) -> bool {
    trim(line).len() > 0 && (trim(line)[0] == '#' || trim(line)[0] == ';')
}

/// The lines that carry content, each without the blanks around it: empty
/// lines and comments are left out.
pub open spec fn sanitize(all: Seq<Seq<char>>) -> Seq<Seq<char>>
    decreases all.len(),
{
    if all.len() == 0 {
        all
    } else if is_empty_line_text(all.last()) || is_comment_line_text(all.last()) {
        sanitize(all.drop_last())
    } else {
        sanitize(all.drop_last()).push(trim(all.last()))
    }
}

/// The content lines of the text of a store.
pub open spec fn content_lines(contents: Seq<char>) -> Seq<Seq<char>> {
    sanitize(lines(contents))
}

/// Whether a content line opens a section.
pub open spec fn is_header(line: Seq<char>) -> bool {
    line.len() > 0 && line[0] == '['
}

/// The name that a header line gives: the line without blanks around it has
/// to open with `[` and close with `]`; the name is that line without any
/// bracket.
pub open spec fn header_name(line: Seq<char>) -> Result<Seq<char>, ProfileError> {
    let t = trim(line);
    if !(t.len() > 0 && t[0] == '[') {
        Err(ProfileError::MalformedHeader)
    } else if t.last() != ']' {
        Err(ProfileError::MalformedHeader)
    } else {
        Ok(without_char(without_char(t, '['), ']'))
    }
}

/// A key with its value.
pub struct PropertyModel {
    pub key: Seq<char>,
    pub value: Seq<char>,
}

/// The property that a line gives: the key is what stands before the first
/// `=`, the value what stands between the first `=` and the second (or the
/// end), both without the blanks around them. A line without `=` gives none.
pub open spec fn property_of(line: Seq<char>) -> Result<PropertyModel, ProfileError> {
    let i = first_index(line, '=');
    if 0 <= i < line.len() {
        let rest = line.skip(i + 1);
        Ok(
            PropertyModel {
                key: trim(line.take(i)),
                value: trim(rest.take(first_index(rest, '='))),
            },
        )
    } else {
        Err(ProfileError::MalformedProperty)
    }
}

/// The keys of a sequence of properties, in order.
pub open spec fn property_keys(props: Seq<PropertyModel>) -> Seq<Seq<char>> {
    Seq::new(props.len(), |i: int| props[i].key)
}

/// `props` with `p` put in: in the place of the property with the same key
/// where there is one, at the end otherwise.
pub open spec fn put_property(props: Seq<PropertyModel>, p: PropertyModel) -> Seq<PropertyModel> {
    let i = first_index(property_keys(props), p.key);
    if 0 <= i < props.len() {
        props.update(i, p)
    } else {
        props.push(p)
    }
}

/// The properties of `props` put in one after another: of two with the same
/// key the later one stays, in the place of the earlier.
pub open spec fn collect_properties(props: Seq<PropertyModel>) -> Seq<PropertyModel>
    decreases props.len(),
{
    if props.len() == 0 {
        props
    } else {
        put_property(collect_properties(props.drop_last()), props.last())
    }
}

/// Putting a property in keeps the keys distinct.
pub proof fn lemma_put_property(props: Seq<PropertyModel>, p: PropertyModel)
    requires
        distinct(property_keys(props)),
    ensures
        distinct(property_keys(put_property(props, p))),
{
    let keys = property_keys(props);
    let i = first_index(keys, p.key);
    lemma_first_index(keys, p.key);
    let keys2 = property_keys(put_property(props, p));
    if 0 <= i < props.len() {
        assert(keys2 =~= keys);
    } else {
        assert(keys2 =~= keys.push(p.key));
    }
}

/// Collected properties have distinct keys.
pub proof fn lemma_collect_properties(props: Seq<PropertyModel>)
    ensures
        distinct(property_keys(collect_properties(props))),
    decreases props.len(),
{
    if props.len() > 0 {
        lemma_collect_properties(props.drop_last());
        lemma_put_property(collect_properties(props.drop_last()), props.last());
    }
}

/// What a profile stands for: its name and its properties, in the order in
/// which their keys first came in.
pub struct ProfileModel {
    pub name: Seq<char>,
    pub properties: Seq<PropertyModel>,
}

impl ProfileModel {
    /// No key occurs twice.
    pub open spec fn wf(self) -> bool {
        distinct(property_keys(self.properties))
    }

    /// Whether the profile has a property with this key.
    pub open spec fn has(self, key: Seq<char>) -> bool {
        has_item(property_keys(self.properties), key)
    }

    /// The value under `key`; meaningful where `has(key)`.
    pub open spec fn value_of(self, key: Seq<char>) -> Seq<char> {
        self.properties[first_index(property_keys(self.properties), key)].value
    }

    /// The value under `key`, or the empty text where there is none.
    pub open spec fn value_or_empty(self, key: Seq<char>) -> Seq<char> {
        if self.has(key) {
            self.value_of(key)
        } else {
            Seq::<char>::empty()
        }
    }
}

/// The names of a sequence of profiles, in order.
pub open spec fn profile_names(profiles: Seq<ProfileModel>) -> Seq<Seq<char>> {
    Seq::new(profiles.len(), |i: int| profiles[i].name)
}

/// Whether a profile of this name is among `profiles`.
pub open spec fn store_has(profiles: Seq<ProfileModel>, name: Seq<char>) -> bool {
    has_item(profile_names(profiles), name)
}

/// The first profile of this name among `profiles`; meaningful where
/// `store_has(profiles, name)`.
pub open spec fn store_get(profiles: Seq<ProfileModel>, name: Seq<char>) -> ProfileModel {
    profiles[first_index(profile_names(profiles), name)]
}

/// `profiles` with `p` put in: in the place of the profile with the same name
/// where there is one, at the end otherwise.
pub open spec fn put_profile(profiles: Seq<ProfileModel>, p: ProfileModel) -> Seq<ProfileModel> {
    let i = first_index(profile_names(profiles), p.name);
    if 0 <= i < profiles.len() {
        profiles.update(i, p)
    } else {
        profiles.push(p)
    }
}

/// A store is well-formed where no name occurs twice and every profile is
/// well-formed.
pub open spec fn store_wf(profiles: Seq<ProfileModel>) -> bool {
    &&& distinct(profile_names(profiles))
    &&& forall|i: int| 0 <= i < profiles.len() ==> (#[trigger] profiles[i]).wf()
}

/// Putting a well-formed profile into a well-formed store leaves it well-formed.
pub proof fn lemma_put_profile(profiles: Seq<ProfileModel>, p: ProfileModel)
    requires
        store_wf(profiles),
        p.wf(),
    ensures
        store_wf(put_profile(profiles, p)),
{
    let names = profile_names(profiles);
    let i = first_index(names, p.name);
    lemma_first_index(names, p.name);
    let names2 = profile_names(put_profile(profiles, p));
    if 0 <= i < profiles.len() {
        assert(names2 =~= names);
    } else {
        assert(names2 =~= names.push(p.name));
    }
}

// ---------------------------------------------------------------------------
// Loading
// ---------------------------------------------------------------------------
/// Where loading stands between two lines: the profiles committed so far,
/// the names that were committed more than once, the section that is open,
/// and the properties read since it was opened.
pub struct LoadState {
    pub profiles: Seq<ProfileModel>,
    pub duplicates: Seq<Seq<char>>,
    pub current: Option<Seq<char>>,
    pub properties: Seq<PropertyModel>,
}

impl LoadState {
    /// Loading before the first line.
    pub open spec fn start() -> LoadState {
        LoadState {
            profiles: Seq::<ProfileModel>::empty(),
            duplicates: Seq::<Seq<char>>::empty(),
            current: None,
            properties: Seq::<PropertyModel>::empty(),
        }
    }

    pub open spec fn wf(self) -> bool {
        store_wf(self.profiles) && distinct(property_keys(self.properties))
    }

    /// Commits the open section, if there is one: its name has to be a valid
    /// profile name; the profile replaces an earlier one of the same name,
    /// which is noted as a duplicate.
    pub open spec fn commit(self) -> Result<LoadState, ProfileError> {
        match self.current {
            None => Ok(self),
            Some(name) => if !valid_profile_name(name) {
                Err(ProfileError::InvalidName)
            } else {
                Ok(
                    LoadState {
                        profiles: put_profile(
                            self.profiles,
                            ProfileModel { name, properties: self.properties },
                        ),
                        duplicates: if store_has(self.profiles, name) {
                            self.duplicates.push(name)
                        } else {
                            self.duplicates
                        },
                        current: self.current,
                        properties: self.properties,
                    },
                )
            },
        }
    }

    /// Takes one content line: a header commits the open section and opens
    /// the next, any other line adds a property to the open section.
    pub open spec fn step(self, line: Seq<char>) -> Result<LoadState, ProfileError> {
        if is_header(line) {
            match self.commit() {
                Err(e) => Err(e),
                Ok(committed) => match header_name(line) {
                    Err(e) => Err(e),
                    Ok(name) => Ok(
                        LoadState {
                            profiles: committed.profiles,
                            duplicates: committed.duplicates,
                            current: Some(name),
                            properties: Seq::<PropertyModel>::empty(),
                        },
                    ),
                },
            }
        } else {
            match property_of(line) {
                Err(e) => Err(e),
                Ok(p) => Ok(
                    LoadState {
                        profiles: self.profiles,
                        duplicates: self.duplicates,
                        current: self.current,
                        properties: put_property(self.properties, p),
                    },
                ),
            }
        }
    }

    /// Takes the content lines one after another; the first failure ends it.
    pub open spec fn run(self, content: Seq<Seq<char>>) -> Result<LoadState, ProfileError>
        decreases content.len(),
    {
        if content.len() == 0 {
            Ok(self)
        } else {
            match self.run(content.drop_last()) {
                Err(e) => Err(e),
                Ok(state) => state.step(content.last()),
            }
        }
    }
}

/// What loading gives: the profiles and the names that occurred more than once.
pub struct Loaded {
    pub profiles: Seq<ProfileModel>,
    pub duplicates: Seq<Seq<char>>,
}

/// What loading the content lines `content` gives.
pub open spec fn load_lines(content: Seq<Seq<char>>) -> Result<Loaded, ProfileError> {
    match LoadState::start().run(content) {
        Err(e) => Err(e),
        Ok(state) => match state.commit() {
            Err(e) => Err(e),
            Ok(done) => Ok(Loaded { profiles: done.profiles, duplicates: done.duplicates }),
        },
    }
}

/// What loading the text of a store gives.
pub open spec fn load_text(contents: Seq<char>) -> Result<Loaded, ProfileError> {
    load_lines(content_lines(contents))
}

/// A failure on the first lines is the failure on all of them.
pub proof fn lemma_run_fails_early(state: LoadState, content: Seq<Seq<char>>, n: int)
    requires
        0 <= n <= content.len(),
        state.run(content.take(n)) is Err,
    ensures
        state.run(content) == state.run(content.take(n)),
    decreases content.len() - n,
{
    if n < content.len() {
        assert(content.take(n + 1).drop_last() == content.take(n));
        lemma_run_fails_early(state, content, n + 1);
    } else {
        assert(content.take(n) == content);
    }
}

/// Steps and commits keep a loading state well-formed.
pub proof fn lemma_step_wf(state: LoadState, line: Seq<char>)
    requires
        state.wf(),
    ensures
        state.commit() matches Ok(s) ==> s.wf(),
        state.step(line) matches Ok(s) ==> s.wf(),
{
    if state.current is Some {
        lemma_put_profile(
            state.profiles,
            ProfileModel { name: state.current->0, properties: state.properties },
        );
    }
    if !is_header(line) && property_of(line) is Ok {
        lemma_put_property(state.properties, property_of(line)->Ok_0);
    }
}

// ---------------------------------------------------------------------------
// Executable line handling
// ---------------------------------------------------------------------------
/// The lines of `v`.
pub fn lines_of(v: &Vec<char>) -> (out: Vec<Vec<char>>)
    ensures
        buffers(out@) == lines(v@),
{
    let mut out: Vec<Vec<char>> = Vec::new();
    let mut pos: usize = 0;
    assert(v@.skip(0) == v@);
    assert(buffers(out@) =~= Seq::<Seq<char>>::empty());
    while pos < v.len()
        invariant
            pos <= v.len(),
            lines(v@) == buffers(out@) + lines(v@.skip(pos as int)),
        decreases v.len() - pos,
    {
        let k = find_from(v, pos, '\n');
        let ghost rest = v@.skip(pos as int);
        let ghost before = buffers(out@);
        assert(rest.take(k - pos) == v@.subrange(pos as int, k as int));
        let end = if k > pos && v[k - 1] == '\r' {
            k - 1
        } else {
            k
        };
        let piece = copy_range(v, pos, end);
        assert(piece@ =~= strip_cr(rest.take(k - pos)));
        out.push(piece);
        assert(buffers(out@) =~= before + seq![strip_cr(rest.take(k - pos))]);
        if k < v.len() {
            assert(rest.skip(k - pos + 1) == v@.skip(k + 1));
            pos = k + 1;
        } else {
            assert(rest.take(k - pos) == rest);
            assert(v@.skip(v.len() as int).len() == 0);
            pos = v.len();
        }
    }
    assert(v@.skip(v.len() as int).len() == 0);
    out
}

/// Whether `line` holds nothing but blanks.
pub fn is_empty_line(line: &str) -> (r: bool)
    ensures
        r == is_empty_line_text(line@),
{
    trimmed(&chars_of(line)).len() == 0
}

/// Whether the first character of `line` that is no blank is `#` or `;`.
pub fn is_comment_line(line: &str) -> (r: bool)
    ensures
        r == is_comment_line_text(line@),
{
    let t = trimmed(&chars_of(line));
    t.len() > 0 && (t[0] == '#' || t[0] == ';')
}

/// Returns the content lines of the text of a store: empty lines and comments
/// are left out, the others come without the blanks around them.
pub fn parse_profile_file(file: &String) -> (r: Result<Vec<String>, ProfileError>)
    ensures
        r matches Ok(out) && views(out@) == content_lines(file@),
{
    let all = lines_of(&chars_of(file.as_str()));
    let mut out: Vec<String> = Vec::new();
    let mut i: usize = 0;
    while i < all.len()
        invariant
            i <= all.len(),
            out@.len() == views(out@).len(),
            views(out@) == sanitize(buffers(all@).take(i as int)),
        decreases all.len() - i,
    {
        let ghost before = out@;
        assert(buffers(all@).take(i + 1).drop_last() == buffers(all@).take(i as int));
        assert(buffers(all@).take(i + 1).last() == all@[i as int]@);
        let t = trimmed(&all[i]);
        if t.len() > 0 && !(t[0] == '#' || t[0] == ';') {
            out.push(string_of(&t));
            assert(views(out@) =~= views(before).push(t@));
        }
        i = i + 1;
    }
    assert(buffers(all@).take(all.len() as int) == buffers(all@));
    Ok(out)
}

/// Reads the name out of a header line.
pub fn read_profile_line(line: &str) -> (r: Result<String, ProfileError>)
    ensures
        match r {
            Ok(name) => header_name(line@) == Ok::<Seq<char>, ProfileError>(name@),
            Err(e) => header_name(line@) == Err::<Seq<char>, ProfileError>(e),
        },
{
    let t = trimmed(&chars_of(line));
    if !(t.len() > 0 && t[0] == '[') {
        return Err(ProfileError::MalformedHeader);
    }
    if t[t.len() - 1] != ']' {
        return Err(ProfileError::MalformedHeader);
    }
    Ok(string_of(&remove_char(&remove_char(&t, '['), ']')))
}

/// Reads the key and the value out of a property line.
pub fn read_property_line(line: &str) -> (r: Result<(String, String), ProfileError>)
    ensures
        match r {
            Ok(pair) => property_of(line@) == Ok::<PropertyModel, ProfileError>(
                PropertyModel { key: pair.0@, value: pair.1@ },
            ),
            Err(e) => property_of(line@) == Err::<PropertyModel, ProfileError>(e),
        },
{
    let chars = chars_of(line);
    let i = find_from(&chars, 0, '=');
    assert(chars@.skip(0) == chars@);
    if i == chars.len() {
        return Err(ProfileError::MalformedProperty);
    }
    let key = trimmed(&copy_range(&chars, 0, i));
    let rest = copy_range(&chars, i + 1, chars.len());
    assert(rest@ == chars@.skip(i + 1));
    let j = find_from(&rest, 0, '=');
    assert(rest@.skip(0) == rest@);
    let value = trimmed(&copy_range(&rest, 0, j));
    Ok((string_of(&key), string_of(&value)))
}

// ---------------------------------------------------------------------------
// Properties and profiles
// ---------------------------------------------------------------------------
/// Key-value property pair.
#[derive(Debug, Clone, Eq, PartialEq)]
pub struct Property {
    key: String,
    value: String,
}

impl View for Property {
    type V = PropertyModel;

    closed spec fn view(&self) -> PropertyModel {
        PropertyModel { key: self.key@, value: self.value@ }
    }
}

/// What a sequence of properties stands for.
pub open spec fn property_models(props: Seq<Property>) -> Seq<PropertyModel> {
    Seq::new(props.len(), |i: int| props[i]@)
}

impl Property {
    /// Value of this property.
    pub fn value(&self) -> (v: &str)
        ensures
            v@ == self@.value,
    {
        self.value.as_str()
    }

    /// Name of this property.
    pub fn key(&self) -> (k: &str)
        ensures
            k@ == self@.key,
    {
        self.key.as_str()
    }

    /// Creates a new property.
    pub fn new(key: String, value: String) -> (p: Property)
        ensures
            p@ == (PropertyModel { key: key@, value: value@ }),
    {
        Property { key, value }
    }
}

/// Position of the property with this key, or the number of properties if
/// there is none.
fn find_property(props: &Vec<Property>, key: &String) -> (i: usize)
    ensures
        i == first_index(property_keys(property_models(props@)), key@),
        i <= props.len(),
{
    let ghost keys = property_keys(property_models(props@));
    let mut i: usize = 0;
    while i < props.len() && !(props[i].key == *key)
        invariant
            i <= props.len(),
            keys == property_keys(property_models(props@)),
            forall|j: int| 0 <= j < i ==> keys[j] != key@,
        decreases props.len() - i,
    {
        i = i + 1;
    }
    proof {
        lemma_first_index_unique(keys, key@, i as int);
    }
    i
}

/// Puts `p` into `props`, in the place of the property with the same key
/// where there is one.
fn put(props: &mut Vec<Property>, p: Property)
    ensures
        property_models(final(props)@) == put_property(property_models(old(props)@), p@),
{
    let i = find_property(props, &p.key);
    if i < props.len() {
        props[i] = p;
    } else {
        props.push(p);
    }
    assert(property_models(props@) =~= put_property(property_models(old(props)@), p@));
}

/// A named set of properties.
#[derive(Debug)]
pub struct Profile {
    name: String,
    properties: Vec<Property>,
}

impl View for Profile {
    type V = ProfileModel;

    closed spec fn view(&self) -> ProfileModel {
        ProfileModel { name: self.name@, properties: property_models(self.properties@) }
    }
}

/// The key under which a profile holds the access key.
pub open spec fn access_key_id() -> Seq<char> {
    "aws_access_key_id"@
}

/// The key under which a profile holds the secret key.
pub open spec fn secret_access_key() -> Seq<char> {
    "aws_secret_access_key"@
}

impl Profile {
    /// Create a new profile.
    ///
    /// Fails with `InvalidName` where `name` does not match the pattern for
    /// profile names. Of two properties with the same key the later one
    /// stays.
    pub fn new(name: String, properties: Vec<Property>) -> (r: Result<Profile, ProfileError>)
        ensures
            match r {
                Ok(p) => valid_profile_name(name@) && p@ == (ProfileModel {
                    name: name@,
                    properties: collect_properties(property_models(properties@)),
                }) && p@.wf(),
                Err(e) => !valid_profile_name(name@) && e == ProfileError::InvalidName,
            },
    {
        let name_ok = check_profile_name(name.as_str());
        Profile::new_checked(name, properties, name_ok)
    }

    /// Create a new profile, given in `name_ok` whether its name matches the
    /// pattern for profile names.
    ///
    /// Fails with `InvalidName` where `name_ok` is false. Of two properties
    /// with the same key the later one stays, in the place of the earlier.
    pub fn new_checked(name: String, properties: Vec<Property>, name_ok: bool) -> (r: Result<
        Profile,
        ProfileError,
    >)
        ensures
            match r {
                Ok(p) => name_ok && p@ == (ProfileModel {
                    name: name@,
                    properties: collect_properties(property_models(properties@)),
                }) && p@.wf(),
                Err(e) => !name_ok && e == ProfileError::InvalidName,
            },
    {
        if !name_ok {
            return Err(ProfileError::InvalidName);
        }
        let ghost all = property_models(properties@);
        let mut kept: Vec<Property> = Vec::new();
        let mut i: usize = 0;
        assert(property_models(kept@) =~= collect_properties(all.take(0)));
        while i < properties.len()
            invariant
                i <= properties.len(),
                all == property_models(properties@),
                property_models(kept@) == collect_properties(all.take(i as int)),
            decreases properties.len() - i,
        {
            assert(all.take(i + 1).drop_last() == all.take(i as int));
            assert(all.take(i + 1).last() == properties@[i as int]@);
            let p = Property {
                key: properties[i].key.clone(),
                value: properties[i].value.clone(),
            };
            put(&mut kept, p);
            i = i + 1;
        }
        assert(all.take(properties.len() as int) == all);
        proof {
            lemma_collect_properties(all);
        }
        Ok(Profile { name, properties: kept })
    }

    /// The name of this profile.
    pub fn name(&self) -> (n: &str)
        ensures
            n@ == self@.name,
    {
        self.name.as_str()
    }

    /// The properties of this profile, in the order in which their keys
    /// first came in.
    pub fn properties(&self) -> (p: &Vec<Property>)
        ensures
            property_models(p@) == self@.properties,
    {
        &self.properties
    }

    /// Returns the value of the property named `name`.
    pub fn get(&self, name: &str) -> (r: Option<&str>)
        ensures
            match r {
                Some(v) => self@.has(name@) && v@ == self@.value_of(name@),
                None => !self@.has(name@),
            },
    {
        let key = String::from_str(name);
        let i = find_property(&self.properties, &key);
        if i < self.properties.len() {
            Some(self.properties[i].value.as_str())
        } else {
            None
        }
    }

    /// Returns the `aws_access_key_id` and `aws_secret_access_key`
    /// properties, each empty where the profile does not have it.
    pub fn get_creds(&self) -> (r: Result<Credentials, ProfileError>)
        ensures
            r matches Ok(c) && c.access_key@ == self@.value_or_empty(access_key_id())
                && c.secret_key@ == self@.value_or_empty(secret_access_key()),
    {
        let access_key = match self.get("aws_access_key_id") {
            Some(v) => String::from_str(v),
            None => String::new(),
        };
        let secret_key = match self.get("aws_secret_access_key") {
            Some(v) => String::from_str(v),
            None => String::new(),
        };
        Ok(Credentials { access_key, secret_key })
    }
}

// ---------------------------------------------------------------------------
// Saving
// ---------------------------------------------------------------------------
/// The property lines of a section, each led by a line feed.
pub open spec fn property_lines_text(props: Seq<PropertyModel>) -> Seq<char>
    decreases props.len(),
{
    if props.len() == 0 {
        Seq::<char>::empty()
    } else {
        property_lines_text(props.drop_last()) + seq!['\n'] + props.last().key + seq![
            ' ',
            '=',
            ' ',
        ] + props.last().value
    }
}

/// The section of a profile: the header line and one line for each property.
pub open spec fn section_text(profile: ProfileModel) -> Seq<char> {
    seq!['['] + profile.name + seq![']'] + property_lines_text(profile.properties)
}

/// What is appended to a store with the text `contents` to save `profile`: a
/// line feed where `contents` does not end with one, then the section.
pub open spec fn appended_text(profile: ProfileModel, contents: Seq<char>) -> Seq<char> {
    if contents.len() > 0 && contents.last() != '\n' {
        seq!['\n'] + section_text(profile)
    } else {
        section_text(profile)
    }
}

/// What saving `profile` into a store with the text `contents` gives: the
/// text to append, or why nothing is to be written.
///
/// The name is checked first, then the store is loaded, then the name is
/// looked up in it.
pub open spec fn save_text(profile: ProfileModel, contents: Seq<char>) -> Result<
    Seq<char>,
    ProfileError,
> {
    if !valid_profile_name(profile.name) {
        Err(ProfileError::InvalidName)
    } else {
        match load_text(contents) {
            Err(e) => Err(e),
            Ok(loaded) => if store_has(loaded.profiles, profile.name) {
                Err(ProfileError::AlreadyExists)
            } else {
                Ok(appended_text(profile, contents))
            },
        }
    }
}

// ---------------------------------------------------------------------------
// Removing
// ---------------------------------------------------------------------------
/// Whether removing the profile `target` takes the content line `line` out:
/// the header of that name goes, and so does every property line whose key
/// and value are those of a property of `target`, in whatever section the
/// line stands.
pub open spec fn drops_line(target: ProfileModel, line: Seq<char>) -> Result<bool, ProfileError> {
    if is_header(line) {
        match header_name(line) {
            Err(e) => Err(e),
            Ok(name) => Ok(name == target.name),
        }
    } else {
        match property_of(line) {
            Err(e) => Err(e),
            Ok(p) => Ok(target.has(p.key) && target.value_of(p.key) == p.value),
        }
    }
}

/// The content lines that stay when `target` is removed; the first line that
/// cannot be read ends it.
pub open spec fn surviving_lines(target: ProfileModel, content: Seq<Seq<char>>) -> Result<
    Seq<Seq<char>>,
    ProfileError,
>
    decreases content.len(),
{
    if content.len() == 0 {
        Ok(content)
    } else {
        match surviving_lines(target, content.drop_last()) {
            Err(e) => Err(e),
            Ok(kept) => match drops_line(target, content.last()) {
                Err(e) => Err(e),
                Ok(dropped) => if dropped {
                    Ok(kept)
                } else {
                    Ok(kept.push(content.last()))
                },
            },
        }
    }
}

/// A failure on the first lines is the failure on all of them.
pub proof fn lemma_surviving_fails_early(target: ProfileModel, content: Seq<Seq<char>>, n: int)
    requires
        0 <= n <= content.len(),
        surviving_lines(target, content.take(n)) is Err,
    ensures
        surviving_lines(target, content) == surviving_lines(target, content.take(n)),
    decreases content.len() - n,
{
    if n < content.len() {
        assert(content.take(n + 1).drop_last() == content.take(n));
        lemma_surviving_fails_early(target, content, n + 1);
    } else {
        assert(content.take(n) == content);
    }
}

/// What is to become of the file of a store.
pub enum RemovalModel {
    /// The file stays as it is.
    Unchanged,
    /// The file is deleted.
    DeleteFile,
    /// The file is rewritten with this text.
    Rewrite(Seq<char>),
}

/// What is to become of the file of a store.
#[derive(Debug)]
pub enum Removal {
    /// The file stays as it is.
    Unchanged,
    /// The file is deleted.
    DeleteFile,
    /// The file is rewritten with this text.
    Rewrite(String),
}

impl View for Removal {
    type V = RemovalModel;

    open spec fn view(&self) -> RemovalModel {
        match self {
            Removal::Unchanged => RemovalModel::Unchanged,
            Removal::DeleteFile => RemovalModel::DeleteFile,
            Removal::Rewrite(text) => RemovalModel::Rewrite(text@),
        }
    }
}

/// What removing the profile called `name` from a store that holds
/// `profiles` and has the text `contents` gives.
///
/// The name is checked first. Where no profile of that name is held the file
/// stays as it is. Else the lines of the profile are taken out of the content
/// lines; where none is left the file is deleted, else it is rewritten with
/// the lines that are left, a line feed between neighbours.
pub open spec fn remove_text(
    profiles: Seq<ProfileModel>,
    name: Seq<char>,
    contents: Seq<char>,
) -> Result<RemovalModel, ProfileError> {
    if !valid_profile_name(name) {
        Err(ProfileError::InvalidName)
    } else if !store_has(profiles, name) {
        Ok(RemovalModel::Unchanged)
    } else {
        match surviving_lines(store_get(profiles, name), content_lines(contents)) {
            Err(e) => Err(e),
            Ok(kept) => if kept.len() == 0 {
                Ok(RemovalModel::DeleteFile)
            } else {
                Ok(RemovalModel::Rewrite(join(kept, seq!['\n'])))
            },
        }
    }
}

// ---------------------------------------------------------------------------
// The store
// ---------------------------------------------------------------------------
/// The profiles of a store, in the order in which their names first came in.
#[derive(Debug)]
pub struct ProfileSet {
    profiles: Vec<Profile>,
}

impl View for ProfileSet {
    type V = Seq<ProfileModel>;

    closed spec fn view(&self) -> Seq<ProfileModel> {
        Seq::new(self.profiles@.len(), |i: int| self.profiles@[i]@)
    }
}

impl ProfileSet {
    /// Create a new empty profile set.
    pub fn new() -> (set: ProfileSet)
        ensures
            set@ == Seq::<ProfileModel>::empty(),
            store_wf(set@),
    {
        let set = ProfileSet { profiles: Vec::new() };
        assert(set@ =~= Seq::<ProfileModel>::empty());
        set
    }

    /// The profiles held, in the order in which their names first came in.
    pub fn profiles(&self) -> (p: &Vec<Profile>)
        ensures
            p@.len() == self@.len(),
            forall|i: int| 0 <= i < p@.len() ==> (#[trigger] p@[i])@ == self@[i],
    {
        &self.profiles
    }

    /// Position of the profile of this name, or the number of profiles if
    /// there is none.
    fn find(&self, name: &String) -> (i: usize)
        ensures
            i == first_index(profile_names(self@), name@),
            i <= self.profiles.len(),
    {
        let ghost names = profile_names(self@);
        let mut i: usize = 0;
        while i < self.profiles.len() && !(self.profiles[i].name == *name)
            invariant
                i <= self.profiles.len(),
                names == profile_names(self@),
                forall|j: int| 0 <= j < i ==> names[j] != name@,
            decreases self.profiles.len() - i,
        {
            i = i + 1;
        }
        proof {
            lemma_first_index_unique(names, name@, i as int);
        }
        i
    }

    /// Puts `profile` in, in the place of the profile of the same name where
    /// there is one. Says whether there was one.
    fn put(&mut self, profile: Profile) -> (replaced: bool)
        ensures
            final(self)@ == put_profile(old(self)@, profile@),
            replaced == store_has(old(self)@, profile@.name),
    {
        let i = self.find(&profile.name);
        if i < self.profiles.len() {
            self.profiles[i] = profile;
            assert(self@ =~= put_profile(old(self)@, profile@));
            true
        } else {
            self.profiles.push(profile);
            assert(self@ =~= put_profile(old(self)@, profile@));
            false
        }
    }

    /// Commits the open section of a load, if there is one.
    fn commit(
        &mut self,
        duplicates: &mut Vec<String>,
        current: &Option<String>,
        properties: &Vec<Property>,
    ) -> (r: Result<(), ProfileError>)
        ensures
            ({
                let before = LoadState {
                    profiles: old(self)@,
                    duplicates: views(old(duplicates)@),
                    current: match *current {
                        Some(n) => Some(n@),
                        None => None,
                    },
                    properties: property_models(properties@),
                };
                match r {
                    Ok(_) => before.commit() is Ok && final(self)@ == before.commit()->Ok_0.profiles
                        && views(final(duplicates)@) == before.commit()->Ok_0.duplicates,
                    Err(e) => before.commit() == Err::<LoadState, ProfileError>(e),
                }
            }),
    {
        match current {
            None => Ok(()),
            Some(name) => {
                if !check_profile_name(name.as_str()) {
                    return Err(ProfileError::InvalidName);
                }
                let mut copy: Vec<Property> = Vec::new();
                let mut i: usize = 0;
                while i < properties.len()
                    invariant
                        i <= properties.len(),
                        copy@.len() == i,
                        forall|j: int| 0 <= j < i ==> (#[trigger] copy@[j])@ == properties@[j]@,
                    decreases properties.len() - i,
                {
                    copy.push(
                        Property {
                            key: properties[i].key.clone(),
                            value: properties[i].value.clone(),
                        },
                    );
                    i = i + 1;
                }
                assert(property_models(copy@) =~= property_models(properties@));
                let profile = Profile { name: name.clone(), properties: copy };
                let replaced = self.put(profile);
                if replaced {
                    let ghost before = views(duplicates@);
                    duplicates.push(name.clone());
                    assert(views(duplicates@) =~= before.push(name@));
                }
                Ok(())
            },
        }
    }

    /// Loads the profiles from the text of a store.
    ///
    /// Returns the profiles and, beside them, the names of the sections that
    /// occurred more than once: of those the last one stays. Fails on the
    /// first line that cannot be read and on the first section whose name is
    /// no valid profile name.
    pub fn from_contents(contents: &str) -> (r: Result<(ProfileSet, Vec<String>), ProfileError>)
        ensures
            match r {
                Ok(pair) => load_text(contents@) == Ok::<Loaded, ProfileError>(
                    Loaded { profiles: pair.0@, duplicates: views(pair.1@) },
                ) && store_wf(pair.0@),
                Err(e) => load_text(contents@) == Err::<Loaded, ProfileError>(e),
            },
    {
        let text = String::from_str(contents);
        let content = match parse_profile_file(&text) {
            Ok(content) => content,
            Err(e) => {
                return Err(e);
            },
        };
        let ghost all = views(content@);
        let mut set = ProfileSet::new();
        let mut duplicates: Vec<String> = Vec::new();
        let mut current: Option<String> = None;
        let mut properties: Vec<Property> = Vec::new();
        let mut i: usize = 0;
        assert(views(duplicates@) =~= Seq::<Seq<char>>::empty());
        assert(property_models(properties@) =~= Seq::<PropertyModel>::empty());
        while i < content.len()
            invariant
                i <= content.len(),
                all == views(content@),
                all == content_lines(contents@),
                LoadState::start().run(all.take(i as int)) == Ok::<LoadState, ProfileError>(
                    LoadState {
                        profiles: set@,
                        duplicates: views(duplicates@),
                        current: match current {
                            Some(n) => Some(n@),
                            None => None,
                        },
                        properties: property_models(properties@),
                    },
                ),
                LoadState::start().run(all.take(i as int)) matches Ok(s) && s.wf(),
            decreases content.len() - i,
        {
            let ghost state = LoadState::start().run(all.take(i as int))->Ok_0;
            proof {
                assert(all.take(i + 1).drop_last() == all.take(i as int));
                assert(all.take(i + 1).last() == content@[i as int]@);
                lemma_step_wf(state, content@[i as int]@);
            }
            let line = chars_of(content[i].as_str());
            if line.len() > 0 && line[0] == '[' {
                match set.commit(&mut duplicates, &current, &properties) {
                    Ok(_) => {},
                    Err(e) => {
                        proof {
                            lemma_run_fails_early(LoadState::start(), all, i + 1);
                        }
                        return Err(e);
                    },
                }
                match read_profile_line(content[i].as_str()) {
                    Ok(name) => {
                        current = Some(name);
                        properties = Vec::new();
                        assert(property_models(properties@) =~= Seq::<PropertyModel>::empty());
                    },
                    Err(e) => {
                        proof {
                            lemma_run_fails_early(LoadState::start(), all, i + 1);
                        }
                        return Err(e);
                    },
                }
            } else {
                match read_property_line(content[i].as_str()) {
                    Ok(pair) => {
                        let (key, value) = pair;
                        put(&mut properties, Property { key, value });
                    },
                    Err(e) => {
                        proof {
                            lemma_run_fails_early(LoadState::start(), all, i + 1);
                        }
                        return Err(e);
                    },
                }
            }
            i = i + 1;
        }
        assert(all.take(content.len() as int) == all);
        proof {
            let state = LoadState::start().run(all)->Ok_0;
            lemma_step_wf(state, Seq::<char>::empty());
        }
        match set.commit(&mut duplicates, &current, &properties) {
            Ok(_) => Ok((set, duplicates)),
            Err(e) => Err(e),
        }
    }

    /// Get a reference to the profile by name.
    pub fn get(&self, name: &str) -> (r: Option<&Profile>)
        ensures
            match r {
                Some(p) => store_has(self@, name@) && p@ == store_get(self@, name@),
                None => !store_has(self@, name@),
            },
    {
        let key = String::from_str(name);
        let i = self.find(&key);
        if i < self.profiles.len() {
            Some(&self.profiles[i])
        } else {
            None
        }
    }

    /// Check if profile exists.
    pub fn profile_exists(&self, name: &str) -> (r: Result<bool, ProfileError>)
        ensures
            r == Ok::<bool, ProfileError>(store_has(self@, name@)),
    {
        let key = String::from_str(name);
        Ok(self.find(&key) < self.profiles.len())
    }

    /// Says what is to become of the file of the store, whose text is
    /// `contents`, when the profile called `name` is removed.
    ///
    /// A property line goes wherever its key and value are those of a
    /// property of the removed profile, also in the section of another
    /// profile.
    pub fn remove(&self, name: &str, contents: &str) -> (r: Result<Removal, ProfileError>)
        ensures
            match r {
                Ok(plan) => remove_text(self@, name@, contents@) == Ok::<
                    RemovalModel,
                    ProfileError,
                >(plan@),
                Err(e) => remove_text(self@, name@, contents@) == Err::<
                    RemovalModel,
                    ProfileError,
                >(e),
            },
    {
        if !check_profile_name(name) {
            return Err(ProfileError::InvalidName);
        }
        let target = match self.get(name) {
            Some(profile) => profile,
            None => {
                return Ok(Removal::Unchanged);
            },
        };
        let text = String::from_str(contents);
        let content = match parse_profile_file(&text) {
            Ok(content) => content,
            Err(e) => {
                return Err(e);
            },
        };
        let ghost all = views(content@);
        let mut kept: Vec<Vec<char>> = Vec::new();
        let mut i: usize = 0;
        assert(buffers(kept@) =~= all.take(0));
        proof {
            lemma_first_index(profile_names(self@), name@);
        }
        assert(target@.name == name@);
        while i < content.len()
            invariant
                i <= content.len(),
                all == views(content@),
                all == content_lines(contents@),
                valid_profile_name(name@),
                store_has(self@, name@),
                target@ == store_get(self@, name@),
                target@.name == name@,
                surviving_lines(target@, all.take(i as int)) == Ok::<
                    Seq<Seq<char>>,
                    ProfileError,
                >(buffers(kept@)),
            decreases content.len() - i,
        {
            proof {
                assert(all.take(i + 1).drop_last() == all.take(i as int));
                assert(all.take(i + 1).last() == content@[i as int]@);
            }
            let ghost before = buffers(kept@);
            let line = chars_of(content[i].as_str());
            let dropped = if line.len() > 0 && line[0] == '[' {
                match read_profile_line(content[i].as_str()) {
                    Ok(found) => {
                        let wanted = String::from_str(name);
                        found == wanted
                    },
                    Err(e) => {
                        proof {
                            lemma_surviving_fails_early(target@, all, i + 1);
                        }
                        return Err(e);
                    },
                }
            } else {
                match read_property_line(content[i].as_str()) {
                    Ok(pair) => {
                        match target.get(pair.0.as_str()) {
                            Some(value) => {
                                let held = String::from_str(value);
                                held == pair.1
                            },
                            None => false,
                        }
                    },
                    Err(e) => {
                        proof {
                            lemma_surviving_fails_early(target@, all, i + 1);
                        }
                        return Err(e);
                    },
                }
            };
            assert(drops_line(target@, content@[i as int]@) == Ok::<bool, ProfileError>(dropped));
            if !dropped {
                kept.push(line);
                assert(buffers(kept@) =~= before.push(content@[i as int]@));
            }
            i = i + 1;
        }
        assert(all.take(content.len() as int) == all);
        if kept.len() == 0 {
            Ok(Removal::DeleteFile)
        } else {
            Ok(Removal::Rewrite(string_of(&join_lines(&kept))))
        }
    }
}

/// The lines of `parts` with a line feed between neighbours.
fn join_lines(parts: &Vec<Vec<char>>) -> (r: Vec<char>)
    ensures
        r@ == join(buffers(parts@), seq!['\n']),
{
    let mut r: Vec<char> = Vec::new();
    let mut i: usize = 0;
    while i < parts.len()
        invariant
            i <= parts.len(),
            r@ == join(buffers(parts@).take(i as int), seq!['\n']),
        decreases parts.len() - i,
    {
        let ghost before = buffers(parts@).take(i as int);
        let ghost now = buffers(parts@).take(i + 1);
        assert(now.drop_last() == before);
        assert(now.last() == parts@[i as int]@);
        if i > 0 {
            r.push('\n');
        }
        append_chars(&mut r, &parts[i]);
        assert(r@ =~= join(now, seq!['\n']));
        i = i + 1;
    }
    assert(buffers(parts@).take(parts.len() as int) == buffers(parts@));
    r
}

impl Profile {
    /// Says what is to be appended to the file of the store, whose text is
    /// `contents`, to save this profile.
    ///
    /// Fails with `InvalidName` where the name is no valid profile name, with
    /// the failure of loading `contents` where it does not load, and with
    /// `AlreadyExists` where the store holds a profile of this name. On a
    /// failure nothing is to be written.
    pub fn save(&self, contents: &str) -> (r: Result<String, ProfileError>)
        ensures
            match r {
                Ok(text) => save_text(self@, contents@) == Ok::<Seq<char>, ProfileError>(text@),
                Err(e) => save_text(self@, contents@) == Err::<Seq<char>, ProfileError>(e),
            },
    {
        if !check_profile_name(self.name.as_str()) {
            return Err(ProfileError::InvalidName);
        }
        let (set, _duplicates) = match ProfileSet::from_contents(contents) {
            Ok(pair) => pair,
            Err(e) => {
                return Err(e);
            },
        };
        match set.profile_exists(self.name.as_str()) {
            Ok(found) => {
                if found {
                    return Err(ProfileError::AlreadyExists);
                }
            },
            Err(e) => {
                return Err(e);
            },
        }
        let old = chars_of(contents);
        let mut block: Vec<char> = Vec::new();
        if old.len() > 0 && old[old.len() - 1] != '\n' {
            block.push('\n');
        }
        let ghost lead = block@;
        append_chars(&mut block, &self.section());
        assert(block@ == lead + section_text(self@));
        assert(block@ =~= appended_text(self@, contents@));
        Ok(string_of(&block))
    }

    /// The section of this profile.
    fn section(&self) -> (block: Vec<char>)
        ensures
            block@ == section_text(self@),
    {
        let mut block: Vec<char> = Vec::new();
        block.push('[');
        append_chars(&mut block, &chars_of(self.name.as_str()));
        block.push(']');
        let ghost head = block@;
        assert(head =~= seq!['['] + self@.name + seq![']']);
        let ghost props = property_models(self.properties@);
        let mut i: usize = 0;
        assert(block@ =~= head + property_lines_text(props.take(0)));
        while i < self.properties.len()
            invariant
                i <= self.properties.len(),
                props == property_models(self.properties@),
                block@ == head + property_lines_text(props.take(i as int)),
            decreases self.properties.len() - i,
        {
            assert(props.take(i + 1).drop_last() == props.take(i as int));
            assert(props.take(i + 1).last() == self.properties@[i as int]@);
            let ghost before = block@;
            push_property_line(&mut block, &self.properties[i]);
            assert(block@ =~= head + property_lines_text(props.take(i + 1))) by {
                assert(block@ == before + seq!['\n'] + props[i as int].key + seq![' ', '=', ' ']
                    + props[i as int].value);
                assert(property_lines_text(props.take(i + 1)) == property_lines_text(
                    props.take(i as int),
                ) + seq!['\n'] + props[i as int].key + seq![' ', '=', ' '] + props[i as int].value);
            }
            i = i + 1;
        }
        assert(props.take(self.properties.len() as int) == props);
        block
    }
}

/// Appends the line of `p`, led by a line feed, to `block`.
fn push_property_line(block: &mut Vec<char>, p: &Property)
    ensures
        final(block)@ == old(block)@ + seq!['\n'] + p@.key + seq![' ', '=', ' '] + p@.value,
{
    block.push('\n');
    append_chars(block, &chars_of(p.key.as_str()));
    let ghost mid = block@;
    block.push(' ');
    block.push('=');
    block.push(' ');
    assert(block@ =~= mid + seq![' ', '=', ' ']);
    append_chars(block, &chars_of(p.value.as_str()));
    assert(block@ =~= old(block)@ + seq!['\n'] + p@.key + seq![' ', '=', ' '] + p@.value);
}

} // verus!
