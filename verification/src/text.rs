//! Character-level text helpers: whitespace trimming, prefixes, searching,
//! and moving between `&str`, `String` and `Vec<char>`.
use vstd::prelude::*;

verus! {

/// Appending one character to a `String` extends its characters by that one.
pub assume_specification[ std::string::String::push ](s: &mut std::string::String, ch: char)
    ensures
        final(s)@ == old(s)@.push(ch),
;

/// Two string slices compare equal exactly when they hold the same characters.
pub assume_specification[ <str as PartialEq>::eq ](a: &str, b: &str) -> (r: bool)
    ensures
        r == (a@ == b@),
;

/// Unicode `White_Space`, the property that `char::is_whitespace` and
/// `str::trim` go by.
pub open spec fn is_ws(c: char) -> bool {
    let u = c as u32;
    ||| 0x09 <= u <= 0x0D
    ||| u == 0x20
    ||| u == 0x85
    ||| u == 0xA0
    ||| u == 0x1680
    ||| 0x2000 <= u <= 0x200A
    ||| u == 0x2028
    ||| u == 0x2029
    ||| u == 0x202F
    ||| u == 0x205F
    ||| u == 0x3000
}

/// `s` without its leading whitespace.
pub open spec fn trim_start(s: Seq<char>) -> Seq<char>
    decreases s.len(),
{
    if s.len() > 0 && is_ws(s[0]) {
        trim_start(s.drop_first())
    } else {
        s
    }
}

/// `s` without its trailing whitespace.
pub open spec fn trim_end(s: Seq<char>) -> Seq<char>
    decreases s.len(),
{
    if s.len() > 0 && is_ws(s.last()) {
        trim_end(s.drop_last())
    } else {
        s
    }
}

/// `s` without leading and trailing whitespace, as `str::trim` gives it.
pub open spec fn trim(s: Seq<char>) -> Seq<char> {
    trim_end(trim_start(s))
}

/// A text that is empty once trimmed.
pub open spec fn is_blank(s: Seq<char>) -> bool {
    trim(s).len() == 0
}

/// `p` is a prefix of `s`.
pub open spec fn starts_with(s: Seq<char>, p: Seq<char>) -> bool {
    p.len() <= s.len() && s.take(p.len() as int) == p
}

/// The index of the first `c` in `s`, or the length of `s` where there is none.
pub open spec fn find_char(s: Seq<char>, c: char) -> nat
    decreases s.len(),
{
    if s.len() == 0 {
        0
    } else if s[0] == c {
        0
    } else {
        1 + find_char(s.drop_first(), c)
    }
}

/// The first index is the one before which no `c` occurs and at which `c`
/// (or the end) stands.
pub proof fn lemma_find_char(s: Seq<char>, c: char, i: int)
    requires
        0 <= i <= s.len(),
        forall|k: int| 0 <= k < i ==> s[k] != c,
        i == s.len() || s[i] == c,
    ensures
        find_char(s, c) == i,
    decreases i,
{
    if i > 0 {
        lemma_find_char(s.drop_first(), c, i - 1);
    }
}

proof fn lemma_trim_start_skip(s: Seq<char>, i: int)
    requires
        0 <= i <= s.len(),
        forall|k: int| 0 <= k < i ==> is_ws(s[k]),
    ensures
        trim_start(s) == trim_start(s.skip(i)),
    decreases i,
{
    if i > 0 {
        assert(s.drop_first().skip(i - 1) =~= s.skip(i));
        lemma_trim_start_skip(s.drop_first(), i - 1);
    } else {
        assert(s.skip(0) =~= s);
    }
}

proof fn lemma_trim_end_take(s: Seq<char>, j: int)
    requires
        0 <= j <= s.len(),
        forall|k: int| j <= k < s.len() ==> is_ws(s[k]),
    ensures
        trim_end(s) == trim_end(s.take(j)),
    decreases s.len() - j,
{
    if j < s.len() {
        assert(s.drop_last().take(j) =~= s.take(j));
        lemma_trim_end_take(s.drop_last(), j);
    } else {
        assert(s.take(j) =~= s);
    }
}

/// Trimming leaves no whitespace at either end.
pub proof fn lemma_trim_ends(s: Seq<char>)
    ensures
        trim_start(s).len() > 0 ==> !is_ws(trim_start(s)[0]),
        trim_end(s).len() > 0 ==> !is_ws(trim_end(s).last()),
        trim(s).len() > 0 ==> !is_ws(trim(s)[0]) && !is_ws(trim(s).last()),
        trim_start(s).len() <= s.len(),
        trim_end(s).len() <= s.len(),
    decreases s.len(),
{
    if s.len() > 0 && is_ws(s[0]) {
        lemma_trim_ends(s.drop_first());
    }
    if s.len() > 0 && is_ws(s.last()) {
        lemma_trim_ends(s.drop_last());
    }
    lemma_trim_end_keeps_start(trim_start(s));
}

/// Trimming the end of a text that starts with a non-space keeps that start.
proof fn lemma_trim_end_keeps_start(s: Seq<char>)
    ensures
        s.len() > 0 && !is_ws(s[0]) ==> trim_end(s).len() > 0 && trim_end(s)[0] == s[0],
        trim_end(s).len() <= s.len(),
        trim_end(s).len() > 0 ==> !is_ws(trim_end(s).last()),
    decreases s.len(),
{
    if s.len() > 0 && is_ws(s.last()) {
        lemma_trim_end_keeps_start(s.drop_last());
    }
}

/// A text with no whitespace at either end is its own trim.
pub proof fn lemma_trim_fixed(s: Seq<char>)
    requires
        s.len() > 0 ==> !is_ws(s[0]) && !is_ws(s.last()),
    ensures
        trim(s) == s,
{
}

/// Trimming twice is trimming once.
pub proof fn lemma_trim_idempotent(s: Seq<char>)
    ensures
        trim(trim(s)) == trim(s),
{
    lemma_trim_ends(s);
    lemma_trim_fixed(trim(s));
}

/// Every character of `s` is whitespace.
pub open spec fn all_ws(s: Seq<char>) -> bool {
    forall|i: int| 0 <= i < s.len() ==> is_ws(#[trigger] s[i])
}

/// `s` has no character `c`.
pub open spec fn lacks_char(s: Seq<char>, c: char) -> bool {
    forall|i: int| 0 <= i < s.len() ==> #[trigger] s[i] != c
}

proof fn lemma_trim_start_split(s: Seq<char>) -> (w: Seq<char>)
    ensures
        all_ws(w),
        s == w + trim_start(s),
        trim_start(s).len() > 0 ==> !is_ws(trim_start(s)[0]),
    decreases s.len(),
{
    if s.len() > 0 && is_ws(s[0]) {
        let w0 = lemma_trim_start_split(s.drop_first());
        let w = seq![s[0]] + w0;
        assert(trim_start(s) == trim_start(s.drop_first()));
        assert(s =~= seq![s[0]] + s.drop_first());
        assert(s =~= w + trim_start(s));
        w
    } else {
        assert(s =~= Seq::<char>::empty() + s);
        Seq::empty()
    }
}

proof fn lemma_trim_end_split(s: Seq<char>) -> (w: Seq<char>)
    ensures
        all_ws(w),
        s == trim_end(s) + w,
        trim_end(s).len() > 0 ==> !is_ws(trim_end(s).last()),
    decreases s.len(),
{
    if s.len() > 0 && is_ws(s.last()) {
        let w0 = lemma_trim_end_split(s.drop_last());
        let w = w0.push(s.last());
        assert(trim_end(s) == trim_end(s.drop_last()));
        assert(s =~= s.drop_last().push(s.last()));
        assert(s =~= trim_end(s) + w);
        w
    } else {
        assert(s =~= s + Seq::<char>::empty());
        Seq::empty()
    }
}

/// A text is its trim between leading and trailing whitespace.
pub proof fn lemma_trim_split(s: Seq<char>) -> (r: (Seq<char>, Seq<char>))
    ensures
        all_ws(r.0),
        all_ws(r.1),
        s == r.0 + trim(s) + r.1,
{
    let w1 = lemma_trim_start_split(s);
    let w2 = lemma_trim_end_split(trim_start(s));
    assert(s =~= w1 + trim(s) + w2);
    (w1, w2)
}

/// Whitespace around a text with no whitespace at its ends is what trimming
/// removes.
pub proof fn lemma_trim_of(w1: Seq<char>, m: Seq<char>, w2: Seq<char>)
    requires
        all_ws(w1),
        all_ws(w2),
        m.len() > 0 ==> !is_ws(m[0]) && !is_ws(m.last()),
    ensures
        trim(w1 + m + w2) == m,
{
    let s = w1 + m + w2;
    assert forall|k: int| 0 <= k < w1.len() implies is_ws(s[k]) by {
        assert(s[k] == w1[k]);
    }
    lemma_trim_start_skip(s, w1.len() as int);
    let r = m + w2;
    assert(s.skip(w1.len() as int) =~= r);
    assert forall|k: int| m.len() <= k < r.len() implies is_ws(r[k]) by {
        assert(r[k] == w2[k - m.len()]);
    }
    if m.len() > 0 {
        assert(trim_start(r) == r);
        lemma_trim_end_take(r, m.len() as int);
        assert(r.take(m.len() as int) =~= m);
    } else {
        lemma_trim_start_skip(r, r.len() as int);
        assert(r.skip(r.len() as int) =~= Seq::<char>::empty());
        assert(m =~= Seq::<char>::empty());
    }
}

/// Trimming the end of `a + b`, where `a` ends in a non-space, trims `b`.
pub proof fn lemma_trim_end_append(a: Seq<char>, b: Seq<char>)
    requires
        a.len() > 0,
        !is_ws(a.last()),
    ensures
        trim_end(a + b) == a + trim_end(b),
    decreases b.len(),
{
    if b.len() == 0 {
        assert(a + b =~= a);
        assert(a + trim_end(b) =~= a);
    } else if is_ws(b.last()) {
        assert((a + b).drop_last() =~= a + b.drop_last());
        lemma_trim_end_append(a, b.drop_last());
    } else {
        assert((a + b).last() == b.last());
    }
}

/// What `find_char` gives: no `c` before it, `c` at it unless it is the end.
pub proof fn lemma_find_char_bound(s: Seq<char>, c: char)
    ensures
        find_char(s, c) <= s.len(),
        forall|k: int| 0 <= k < find_char(s, c) ==> s[k] != c,
        find_char(s, c) < s.len() ==> s[find_char(s, c) as int] == c,
    decreases s.len(),
{
    if s.len() > 0 && s[0] != c {
        lemma_find_char_bound(s.drop_first(), c);
        assert forall|k: int| 0 <= k < find_char(s, c) implies s[k] != c by {
            if k > 0 {
                assert(s[k] == s.drop_first()[k - 1]);
            }
        }
    }
}

/// Searching past a part without `c` adds that part's length.
pub proof fn lemma_find_char_append(y: Seq<char>, z: Seq<char>, c: char)
    requires
        lacks_char(y, c),
    ensures
        find_char(y + z, c) == y.len() + find_char(z, c),
{
    lemma_find_char_bound(z, c);
    let s = y + z;
    let i: int = y.len() + find_char(z, c) as int;
    assert forall|k: int| 0 <= k < i implies s[k] != c by {
        if k < y.len() {
            assert(s[k] == y[k]);
        } else {
            assert(s[k] == z[k - y.len()]);
        }
    }
    if i < s.len() {
        assert(s[i] == z[find_char(z, c) as int]);
    }
    lemma_find_char(s, c, i);
}

/// A text without `c` has it nowhere: the search reaches the end.
pub proof fn lemma_find_char_absent(s: Seq<char>, c: char)
    requires
        lacks_char(s, c),
    ensures
        find_char(s, c) == s.len(),
{
    lemma_find_char(s, c, s.len() as int);
}

/// Whitespace holds no `.`.
pub proof fn lemma_ws_lacks_dot(w: Seq<char>)
    requires
        all_ws(w),
    ensures
        lacks_char(w, '.'),
{
    assert forall|i: int| 0 <= i < w.len() implies #[trigger] w[i] != '.' by {
        assert(is_ws(w[i]));
        assert(!is_ws('.'));
    }
}

/// Whether two string slices hold the same characters.
pub fn str_eq(a: &str, b: &str) -> (r: bool)
    ensures
        r == (a@ == b@),
{
    a.eq(b)
}

/// The characters of a string slice.
pub fn chars_of(s: &str) -> (r: Vec<char>)
    ensures
        r@ == s@,
{
    broadcast use vstd::string::group_string_axioms;

    let mut r: Vec<char> = Vec::new();
    for c in it: s.chars()
        invariant
            r@ == it.seq().take(it.index() as int),
            it.seq() == s@,
    {
        r.push(c);
    }
    r
}

/// The string made of the given characters.
pub fn string_of(cs: &[char]) -> (r: String)
    ensures
        r@ == cs@,
{
    let mut r = String::new();
    let mut i: usize = 0;
    while i < cs.len()
        invariant
            i <= cs.len(),
            r@ == cs@.take(i as int),
        decreases cs.len() - i,
    {
        r.push(cs[i]);
        i = i + 1;
        assert(cs@.take(i as int) == cs@.take((i - 1) as int).push(cs@[i - 1]));
    }
    assert(cs@.take(cs.len() as int) == cs@);
    r
}

/// The characters `cs[from..to]`.
pub fn sub_chars(cs: &[char], from: usize, to: usize) -> (r: Vec<char>)
    requires
        from <= to <= cs.len(),
    ensures
        r@ == cs@.subrange(from as int, to as int),
{
    let mut r: Vec<char> = Vec::new();
    let mut i: usize = from;
    while i < to
        invariant
            from <= i <= to <= cs.len(),
            r@ == cs@.subrange(from as int, i as int),
        decreases to - i,
    {
        r.push(cs[i]);
        i = i + 1;
        assert(cs@.subrange(from as int, i as int) == cs@.subrange(from as int, i - 1).push(
            cs@[i - 1],
        ));
    }
    r
}

/// Whether a character is whitespace in the sense of `char::is_whitespace`.
pub fn char_is_ws(c: char) -> (r: bool)
    ensures
        r == is_ws(c),
{
    let u = c as u32;
    (0x09 <= u && u <= 0x0D) || u == 0x20 || u == 0x85 || u == 0xA0 || u == 0x1680 || (0x2000
        <= u && u <= 0x200A) || u == 0x2028 || u == 0x2029 || u == 0x202F || u == 0x205F || u
        == 0x3000
}

/// The characters of `cs` without leading and trailing whitespace.
pub fn trim_chars(cs: &[char]) -> (r: Vec<char>)
    ensures
        r@ == trim(cs@),
{
    let mut i: usize = 0;
    while i < cs.len() && char_is_ws(cs[i])
        invariant
            i <= cs.len(),
            forall|k: int| 0 <= k < i ==> is_ws(cs@[k]),
        decreases cs.len() - i,
    {
        i = i + 1;
    }
    proof {
        lemma_trim_start_skip(cs@, i as int);
    }
    let mut j: usize = cs.len();
    while j > i && char_is_ws(cs[j - 1])
        invariant
            i <= j <= cs.len(),
            forall|k: int| j <= k < cs.len() ==> is_ws(cs@[k]),
        decreases j,
    {
        j = j - 1;
    }
    let ghost rest = cs@.skip(i as int);
    proof {
        assert(trim_start(rest) == rest);
        assert forall|k: int| j - i <= k < rest.len() implies is_ws(rest[k]) by {
            assert(rest[k] == cs@[k + i]);
        }
        lemma_trim_end_take(rest, j - i);
        let mid = rest.take(j - i);
        if mid.len() > 0 {
            assert(mid.last() == cs@[j - 1]);
        }
        assert(trim_end(mid) == mid);
        assert(mid =~= cs@.subrange(i as int, j as int));
    }
    sub_chars(cs, i, j)
}

/// `s` with leading and trailing whitespace removed, as `str::trim` gives it.
pub fn trim_str(s: &str) -> (r: String)
    ensures
        r@ == trim(s@),
{
    let cs = chars_of(s);
    let t = trim_chars(cs.as_slice());
    string_of(t.as_slice())
}

/// Whether `s` is empty once trimmed.
pub fn str_is_blank(s: &str) -> (r: bool)
    ensures
        r == is_blank(s@),
{
    let cs = chars_of(s);
    let t = trim_chars(cs.as_slice());
    t.len() == 0
}

/// Whether `p` is a prefix of `s`.
pub fn chars_start_with(s: &[char], p: &[char]) -> (r: bool)
    ensures
        r == starts_with(s@, p@),
{
    if p.len() > s.len() {
        return false;
    }
    let mut i: usize = 0;
    while i < p.len()
        invariant
            i <= p.len() <= s.len(),
            forall|k: int| 0 <= k < i ==> s@[k] == p@[k],
        decreases p.len() - i,
    {
        if s[i] != p[i] {
            assert(s@.take(p.len() as int)[i as int] != p@[i as int]);
            return false;
        }
        i = i + 1;
    }
    assert(s@.take(p.len() as int) =~= p@);
    true
}

/// The index of the first `c` in `s`, or the length of `s` where there is none.
pub fn find_char_index(s: &[char], c: char) -> (r: usize)
    ensures
        r == find_char(s@, c),
        r <= s.len(),
{
    let mut i: usize = 0;
    while i < s.len() && s[i] != c
        invariant
            i <= s.len(),
            forall|k: int| 0 <= k < i ==> s@[k] != c,
        decreases s.len() - i,
    {
        i = i + 1;
    }
    proof {
        lemma_find_char(s@, c, i as int);
    }
    i
}

/// The characters of `a` followed by those of `b`.
pub fn concat_str(a: &str, b: &str) -> (r: String)
    ensures
        r@ == a@ + b@,
{
    let mut x = chars_of(a);
    let y = chars_of(b);
    let mut i: usize = 0;
    let ghost start = x@;
    while i < y.len()
        invariant
            i <= y.len(),
            start == a@,
            y@ == b@,
            x@ == start + y@.take(i as int),
        decreases y.len() - i,
    {
        x.push(y[i]);
        i = i + 1;
        assert(start + y@.take(i as int) =~= start + y@.take(i - 1) + seq![y@[i - 1]]);
    }
    assert(y@.take(y.len() as int) =~= y@);
    string_of(x.as_slice())
}

} // verus!
