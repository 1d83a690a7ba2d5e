//! Character-level text operations with sequence specifications.
//!
//! Every string the library handles is viewed as a `Seq<char>`. The
//! specifications here are stated over those sequences; the executable
//! functions work on `Vec<char>` buffers and convert at the edges.

use vstd::prelude::*;

verus! {

/// `i` is the position of the first item equal to `c` in `s`, or `s.len()` if
/// there is none.
pub open spec fn is_first_index<A>(s: Seq<A>, c: A, i: int) -> bool {
    &&& 0 <= i <= s.len()
    &&& forall|j: int| 0 <= j < i ==> s[j] != c
    &&& i < s.len() ==> s[i] == c
}

/// Position of the first item equal to `c` in `s`, or `s.len()` if `s` holds none.
pub open spec fn first_index<A>(s: Seq<A>, c: A) -> int
    decreases s.len(),
{
    if s.len() == 0 || s[0] == c {
        0
    } else {
        1 + first_index(s.skip(1), c)
    }
}

/// `first_index` meets its characterisation.
pub proof fn lemma_first_index<A>(s: Seq<A>, c: A)
    ensures
        is_first_index(s, c, first_index(s, c)),
    decreases s.len(),
{
    if s.len() == 0 || s[0] == c {
    } else {
        lemma_first_index(s.skip(1), c);
        let r = first_index(s.skip(1), c);
        assert forall|j: int| 0 <= j < 1 + r implies s[j] != c by {
            if j > 0 {
                assert(s.skip(1)[j - 1] == s[j]);
            }
        }
        if 1 + r < s.len() {
            assert(s.skip(1)[r] == s[1 + r]);
        }
    }
}

/// The characterisation pins `first_index` down.
pub proof fn lemma_first_index_unique<A>(s: Seq<A>, c: A, i: int)
    requires
        is_first_index(s, c, i),
    ensures
        first_index(s, c) == i,
{
    lemma_first_index(s, c);
    let r = first_index(s, c);
    if r < i {
        assert(s[r] != c);
    } else if i < r {
        assert(s[i] != c);
    }
}

/// Whether `s` holds an item equal to `c`.
pub open spec fn has_item<A>(s: Seq<A>, c: A) -> bool {
    first_index(s, c) < s.len()
}

/// `has_item` is membership.
pub proof fn lemma_has_item<A>(s: Seq<A>, c: A)
    ensures
        has_item(s, c) <==> s.contains(c),
{
    lemma_first_index(s, c);
    let r = first_index(s, c);
    if r < s.len() {
        assert(s[r] == c);
    } else {
        if s.contains(c) {
            let j = choose|j: int| 0 <= j < s.len() && s[j] == c;
            assert(s[j] != c);
        }
    }
}

/// The non-empty pieces of `s` between occurrences of `d`, in order.
pub open spec fn segments(s: Seq<char>, d: char) -> Seq<Seq<char>>
    decreases s.len(),
{
    let i = first_index(s, d);
    let head = if i > 0 {
        seq![s.take(i)]
    } else {
        Seq::<Seq<char>>::empty()
    };
    if 0 <= i < s.len() {
        head + segments(s.skip(i + 1), d)
    } else {
        head
    }
}

/// Every segment is non-empty and free of the delimiter.
pub proof fn lemma_segments_clean(s: Seq<char>, d: char)
    ensures
        forall|k: int|
            0 <= k < segments(s, d).len() ==> (#[trigger] segments(s, d)[k]).len() > 0
                && !segments(s, d)[k].contains(d),
    decreases s.len(),
{
    lemma_first_index(s, d);
    let i = first_index(s, d);
    let head = if i > 0 {
        seq![s.take(i)]
    } else {
        Seq::<Seq<char>>::empty()
    };
    if i > 0 {
        assert(!s.take(i).contains(d)) by {
            if s.take(i).contains(d) {
                let j = choose|j: int| 0 <= j < s.take(i).len() && s.take(i)[j] == d;
                assert(s[j] != d);
            }
        }
    }
    if i < s.len() {
        lemma_segments_clean(s.skip(i + 1), d);
        let tail = segments(s.skip(i + 1), d);
        assert forall|k: int| 0 <= k < segments(s, d).len() implies (#[trigger] segments(
            s,
            d,
        )[k]).len() > 0 && !segments(s, d)[k].contains(d) by {
            if k < head.len() {
                assert(segments(s, d)[k] == head[k]);
            } else {
                assert(segments(s, d)[k] == tail[k - head.len()]);
            }
        }
    }
}

/// A delimiter at the front of a text adds no segment.
pub proof fn lemma_segments_skip_delimiter(s: Seq<char>, delimiter: char)
    requires
        s.len() > 0,
        s[0] == delimiter,
    ensures
        segments(s, delimiter) == segments(s.skip(1), delimiter),
{
    lemma_first_index_unique(s, delimiter, 0);
    assert(Seq::<Seq<char>>::empty() + segments(s.skip(1), delimiter) =~= segments(
        s.skip(1),
        delimiter,
    ));
}

/// A delimiter at the back of a text adds no segment.
pub proof fn lemma_segments_push_delimiter(s: Seq<char>, delimiter: char)
    ensures
        segments(s.push(delimiter), delimiter) == segments(s, delimiter),
    decreases s.len(),
{
    let i = first_index(s, delimiter);
    lemma_first_index(s, delimiter);
    let t = s.push(delimiter);
    lemma_first_index_unique(t, delimiter, i);
    assert(t.take(i) =~= s.take(i));
    if i < s.len() {
        assert(t.skip(i + 1) =~= s.skip(i + 1).push(delimiter));
        lemma_segments_push_delimiter(s.skip(i + 1), delimiter);
    } else {
        assert(t.skip(i + 1).len() == 0);
        assert(segments(t.skip(i + 1), delimiter) =~= Seq::<Seq<char>>::empty());
        assert(segments(t, delimiter) =~= segments(s, delimiter));
    }
}

/// A text of nothing but delimiters has no segment.
pub proof fn lemma_segments_of_delimiters(s: Seq<char>, delimiter: char)
    requires
        forall|j: int| 0 <= j < s.len() ==> s[j] == delimiter,
    ensures
        segments(s, delimiter) == Seq::<Seq<char>>::empty(),
    decreases s.len(),
{
    if s.len() == 0 {
        lemma_first_index(s, delimiter);
    } else {
        lemma_segments_skip_delimiter(s, delimiter);
        assert forall|j: int| 0 <= j < s.skip(1).len() implies s.skip(1)[j] == delimiter by {
            assert(s.skip(1)[j] == s[j + 1]);
        }
        lemma_segments_of_delimiters(s.skip(1), delimiter);
    }
}

/// The characters that count as blank around a line: space and tab only.
pub open spec fn is_blank(c: char) -> bool {
    c == ' ' || c == '\t'
}

/// Number of blank characters at the front of `s`.
pub open spec fn leading_blanks(s: Seq<char>) -> int
    decreases s.len(),
{
    if s.len() == 0 || !is_blank(s[0]) {
        0
    } else {
        1 + leading_blanks(s.skip(1))
    }
}

/// Number of blank characters at the back of `s`.
pub open spec fn trailing_blanks(s: Seq<char>) -> int
    decreases s.len(),
{
    if s.len() == 0 || !is_blank(s.last()) {
        0
    } else {
        1 + trailing_blanks(s.drop_last())
    }
}

/// `s` without the blanks at its front.
pub open spec fn trim_start(s: Seq<char>) -> Seq<char> {
    s.skip(leading_blanks(s))
}

/// `s` without the blanks at its back.
pub open spec fn trim_end(s: Seq<char>) -> Seq<char> {
    s.take(s.len() - trailing_blanks(s))
}

/// `s` without the blanks at either end.
pub open spec fn trim(s: Seq<char>) -> Seq<char> {
    trim_end(trim_start(s))
}

/// What `leading_blanks` counts: a run of blanks followed by a non-blank or the end.
pub proof fn lemma_leading_blanks(s: Seq<char>)
    ensures
        0 <= leading_blanks(s) <= s.len(),
        forall|j: int| 0 <= j < leading_blanks(s) ==> is_blank(s[j]),
        leading_blanks(s) < s.len() ==> !is_blank(s[leading_blanks(s)]),
    decreases s.len(),
{
    if s.len() == 0 || !is_blank(s[0]) {
    } else {
        lemma_leading_blanks(s.skip(1));
        let r = leading_blanks(s.skip(1));
        assert forall|j: int| 0 <= j < 1 + r implies is_blank(s[j]) by {
            if j > 0 {
                assert(s.skip(1)[j - 1] == s[j]);
            }
        }
        if 1 + r < s.len() {
            assert(s.skip(1)[r] == s[1 + r]);
        }
    }
}

/// A run of blanks that ends at a non-blank or at the end is what `leading_blanks` counts.
pub proof fn lemma_leading_blanks_unique(s: Seq<char>, n: int)
    requires
        0 <= n <= s.len(),
        forall|j: int| 0 <= j < n ==> is_blank(s[j]),
        n < s.len() ==> !is_blank(s[n]),
    ensures
        leading_blanks(s) == n,
{
    lemma_leading_blanks(s);
    let r = leading_blanks(s);
    if r < n {
        assert(is_blank(s[r]));
    } else if n < r {
        assert(is_blank(s[n]));
    }
}

/// What `trailing_blanks` counts: a run of blanks preceded by a non-blank or the start.
pub proof fn lemma_trailing_blanks(s: Seq<char>)
    ensures
        0 <= trailing_blanks(s) <= s.len(),
        forall|j: int| s.len() - trailing_blanks(s) <= j < s.len() ==> is_blank(s[j]),
        trailing_blanks(s) < s.len() ==> !is_blank(s[s.len() - trailing_blanks(s) - 1]),
    decreases s.len(),
{
    if s.len() == 0 || !is_blank(s.last()) {
    } else {
        lemma_trailing_blanks(s.drop_last());
        let r = trailing_blanks(s.drop_last());
        assert forall|j: int| s.len() - (1 + r) <= j < s.len() implies is_blank(s[j]) by {
            if j < s.len() - 1 {
                assert(s.drop_last()[j] == s[j]);
            }
        }
        if 1 + r < s.len() {
            assert(s.drop_last()[s.len() - 1 - r - 1] == s[s.len() - (1 + r) - 1]);
        }
    }
}

/// A run of blanks that starts after a non-blank or at the start is what
/// `trailing_blanks` counts.
pub proof fn lemma_trailing_blanks_unique(s: Seq<char>, n: int)
    requires
        0 <= n <= s.len(),
        forall|j: int| s.len() - n <= j < s.len() ==> is_blank(s[j]),
        n < s.len() ==> !is_blank(s[s.len() - n - 1]),
    ensures
        trailing_blanks(s) == n,
{
    lemma_trailing_blanks(s);
    let r = trailing_blanks(s);
    if r < n {
        assert(is_blank(s[s.len() - r - 1]));
    } else if n < r {
        assert(is_blank(s[s.len() - n - 1]));
    }
}

/// A text with no blank at either end is its own trimmed form.
pub proof fn lemma_trim_fixed(s: Seq<char>)
    requires
        s.len() > 0 ==> !is_blank(s[0]) && !is_blank(s.last()),
    ensures
        trim(s) == s,
{
    lemma_leading_blanks_unique(s, 0);
    assert(s.skip(0) == s);
    lemma_trailing_blanks_unique(s, 0);
    assert(s.take(s.len() as int) == s);
}

/// `s` with every occurrence of `c` taken out.
pub open spec fn without_char(s: Seq<char>, c: char) -> Seq<char>
    decreases s.len(),
{
    if s.len() == 0 {
        s
    } else if s.last() == c {
        without_char(s.drop_last(), c)
    } else {
        without_char(s.drop_last(), c).push(s.last())
    }
}

/// Taking out a character that does not occur changes nothing.
pub proof fn lemma_without_absent(s: Seq<char>, c: char)
    requires
        !s.contains(c),
    ensures
        without_char(s, c) == s,
    decreases s.len(),
{
    if s.len() > 0 {
        assert(s.last() == s[s.len() - 1]);
        assert forall|j: int| 0 <= j < s.drop_last().len() implies s.drop_last()[j] != c by {
            assert(s.drop_last()[j] == s[j]);
        }
        lemma_without_absent(s.drop_last(), c);
        assert(s.drop_last().push(s.last()) == s);
    }
}

/// `s` with `p` taken off its front, or `s` itself where it does not start with `p`.
pub open spec fn strip_prefix(s: Seq<char>, p: Seq<char>) -> Seq<char> {
    if p.is_prefix_of(s) {
        s.skip(p.len() as int)
    } else {
        s
    }
}

/// The pieces of `parts` with `sep` between neighbours.
pub open spec fn join(parts: Seq<Seq<char>>, sep: Seq<char>) -> Seq<char>
    decreases parts.len(),
{
    if parts.len() == 0 {
        Seq::<char>::empty()
    } else if parts.len() == 1 {
        parts[0]
    } else {
        join(parts.drop_last(), sep) + sep + parts.last()
    }
}

/// The view of an optional string.
pub open spec fn text_of(s: Option<String>) -> Option<Seq<char>> {
    match s {
        Some(t) => Some(t@),
        None => None,
    }
}

/// A copy of an optional string.
pub fn clone_text(s: &Option<String>) -> (r: Option<String>)
    ensures
        text_of(r) == text_of(*s),
{
    match s {
        Some(t) => Some(t.clone()),
        None => None,
    }
}

/// The views of a sequence of strings.
pub open spec fn views(v: Seq<String>) -> Seq<Seq<char>> {
    Seq::new(v.len(), |i: int| v[i]@)
}

/// No two items of `s` are equal.
pub open spec fn distinct<A>(s: Seq<A>) -> bool {
    forall|i: int, j: int| 0 <= i < j < s.len() ==> s[i] != s[j]
}

/// The views of a sequence of character buffers.
pub open spec fn buffers(v: Seq<Vec<char>>) -> Seq<Seq<char>> {
    Seq::new(v.len(), |i: int| v[i]@)
}

/// Appends one character to a string.
///
/// Wraps `String::push`, which std documents as appending the given `char` to
/// the end of the string; nothing else in it changes.
#[verifier::external_body]
fn push_char(s: &mut String, c: char)
    ensures
        final(s)@ == old(s)@.push(c),
{
    s.push(c);
}

/// The characters of `s`, in order.
pub fn chars_of(s: &str) -> (v: Vec<char>)
    ensures
        v@ == s@,
{
    let mut v: Vec<char> = Vec::new();
    for c in it: s.chars()
        invariant
            v@ == it.seq().take(it.index() as int),
            it.seq() == s@,
    {
        v.push(c);
    }
    v
}

/// The string made of the characters `v[from..to]`.
pub(crate) fn string_of_range(v: &Vec<char>, from: usize, to: usize) -> (s: String)
    requires
        from <= to <= v.len(),
    ensures
        s@ == v@.subrange(from as int, to as int),
{
    let mut s = String::new();
    let mut i: usize = from;
    while i < to
        invariant
            from <= i <= to <= v.len(),
            s@ == v@.subrange(from as int, i as int),
        decreases to - i,
    {
        push_char(&mut s, v[i]);
        i = i + 1;
    }
    s
}

/// The string made of the characters of `v`.
pub fn string_of(v: &Vec<char>) -> (s: String)
    ensures
        s@ == v@,
{
    let s = string_of_range(v, 0, v.len());
    assert(v@.subrange(0, v.len() as int) == v@);
    s
}

/// A copy of the characters `v[from..to]`.
pub(crate) fn copy_range(v: &Vec<char>, from: usize, to: usize) -> (r: Vec<char>)
    requires
        from <= to <= v.len(),
    ensures
        r@ == v@.subrange(from as int, to as int),
{
    let mut r: Vec<char> = Vec::new();
    let mut i: usize = from;
    while i < to
        invariant
            from <= i <= to <= v.len(),
            r@ == v@.subrange(from as int, i as int),
        decreases to - i,
    {
        r.push(v[i]);
        i = i + 1;
    }
    r
}

/// Whether `v` starts with `p`.
pub fn starts_with(v: &Vec<char>, p: &Vec<char>) -> (r: bool)
    ensures
        r == p@.is_prefix_of(v@),
{
    if p.len() > v.len() {
        return false;
    }
    let mut i: usize = 0;
    while i < p.len()
        invariant
            i <= p.len() <= v.len(),
            v@.take(i as int) == p@.take(i as int),
        decreases p.len() - i,
    {
        if v[i] != p[i] {
            assert(v@.subrange(0, p.len() as int)[i as int] != p@[i as int]);
            return false;
        }
        assert(v@.take(i + 1) == v@.take(i as int).push(v@[i as int]));
        assert(p@.take(i + 1) == p@.take(i as int).push(p@[i as int]));
        i = i + 1;
    }
    assert(p@.take(p.len() as int) == p@);
    assert(v@.take(p.len() as int) == v@.subrange(0, p.len() as int));
    true
}

/// Position of the first `c` at or after `from`, or `v.len()` if there is none.
pub(crate) fn find_from(v: &Vec<char>, from: usize, c: char) -> (r: usize)
    requires
        from <= v.len(),
    ensures
        from <= r <= v.len(),
        r - from == first_index(v@.skip(from as int), c),
{
    let mut i: usize = from;
    while i < v.len() && v[i] != c
        invariant
            from <= i <= v.len(),
            forall|j: int| from <= j < i ==> v@[j] != c,
        decreases v.len() - i,
    {
        i = i + 1;
    }
    proof {
        lemma_first_index_unique(v@.skip(from as int), c, i - from);
    }
    i
}

/// The non-empty pieces of `v` between occurrences of `d`.
pub fn split_segments(v: &Vec<char>, d: char) -> (out: Vec<Vec<char>>)
    ensures
        buffers(out@) == segments(v@, d),
{
    let mut out: Vec<Vec<char>> = Vec::new();
    let mut pos: usize = 0;
    assert(v@.skip(0) == v@);
    assert(buffers(out@) == Seq::<Seq<char>>::empty());
    while pos < v.len()
        invariant
            pos <= v.len(),
            segments(v@, d) == buffers(out@) + segments(v@.skip(pos as int), d),
        decreases v.len() - pos,
    {
        let k = find_from(v, pos, d);
        let ghost rest = v@.skip(pos as int);
        let ghost before = buffers(out@);
        assert(rest.take(k - pos) == v@.subrange(pos as int, k as int));
        if k > pos {
            let piece = copy_range(v, pos, k);
            out.push(piece);
            assert(buffers(out@) == before + seq![rest.take(k - pos)]);
        }
        if k < v.len() {
            assert(rest.skip(k - pos + 1) == v@.skip(k + 1));
            pos = k + 1;
        } else {
            assert(v@.skip(v.len() as int).len() == 0);
            pos = v.len();
        }
    }
    assert(v@.skip(v.len() as int).len() == 0);
    out
}

/// `v` without the blanks at either end.
pub fn trimmed(v: &Vec<char>) -> (r: Vec<char>)
    ensures
        r@ == trim(v@),
{
    let mut a: usize = 0;
    while a < v.len() && (v[a] == ' ' || v[a] == '\t')
        invariant
            a <= v.len(),
            forall|j: int| 0 <= j < a ==> is_blank(v@[j]),
        decreases v.len() - a,
    {
        a = a + 1;
    }
    let mut b: usize = v.len();
    while b > a && (v[b - 1] == ' ' || v[b - 1] == '\t')
        invariant
            a <= b <= v.len(),
            forall|j: int| b <= j < v.len() ==> is_blank(v@[j]),
        decreases b - a,
    {
        b = b - 1;
    }
    proof {
        lemma_leading_blanks_unique(v@, a as int);
        let t = v@.skip(a as int);
        assert forall|j: int| t.len() - (v.len() - b) <= j < t.len() implies is_blank(t[j]) by {
            assert(t[j] == v@[j + a]);
        }
        if b > a {
            assert(t[b - a - 1] == v@[b - 1]);
        }
        lemma_trailing_blanks_unique(t, v.len() - b);
        assert(t.take(t.len() - (v.len() - b)) == v@.subrange(a as int, b as int));
    }
    copy_range(v, a, b)
}

/// `v` with every occurrence of `c` taken out.
pub fn remove_char(v: &Vec<char>, c: char) -> (r: Vec<char>)
    ensures
        r@ == without_char(v@, c),
{
    let mut r: Vec<char> = Vec::new();
    let mut i: usize = 0;
    while i < v.len()
        invariant
            i <= v.len(),
            r@ == without_char(v@.take(i as int), c),
        decreases v.len() - i,
    {
        assert(v@.take(i + 1).drop_last() == v@.take(i as int));
        if v[i] != c {
            r.push(v[i]);
        }
        i = i + 1;
    }
    assert(v@.take(v.len() as int) == v@);
    r
}

/// Appends the characters of `tail` to `buf`.
pub fn append_chars(buf: &mut Vec<char>, tail: &Vec<char>)
    ensures
        final(buf)@ == old(buf)@ + tail@,
{
    let mut i: usize = 0;
    while i < tail.len()
        invariant
            i <= tail.len(),
            buf@ == old(buf)@ + tail@.take(i as int),
        decreases tail.len() - i,
    {
        buf.push(tail[i]);
        assert(tail@.take(i + 1) == tail@.take(i as int).push(tail@[i as int]));
        i = i + 1;
    }
    assert(tail@.take(tail.len() as int) == tail@);
}

/// The pieces of `parts` with `delimiter` between neighbours.
pub fn join_with(parts: &Vec<String>, delimiter: char) -> (r: Vec<char>)
    ensures
        r@ == join(views(parts@), seq![delimiter]),
{
    let mut r: Vec<char> = Vec::new();
    let mut i: usize = 0;
    while i < parts.len()
        invariant
            i <= parts.len(),
            r@ == join(views(parts@).take(i as int), seq![delimiter]),
        decreases parts.len() - i,
    {
        let ghost before = views(parts@).take(i as int);
        let ghost now = views(parts@).take(i + 1);
        assert(now.drop_last() == before);
        assert(now.last() == parts@[i as int]@);
        if i > 0 {
            r.push(delimiter);
        }
        let piece = chars_of(parts[i].as_str());
        append_chars(&mut r, &piece);
        assert(r@ =~= join(now, seq![delimiter]));
        i = i + 1;
    }
    assert(views(parts@).take(parts.len() as int) == views(parts@));
    r
}

} // verus!
