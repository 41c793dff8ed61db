//! The JSON values the service exchanges, their mathematical model, and the
//! lookups the library performs on them.
use vstd::prelude::*;

use crate::text::{is_blank, trim};
use serde_json::Error as SerdeJsonError;

verus! {

broadcast use vstd::seq::group_seq_axioms;

/// The mathematical model of a JSON value. Numbers keep the text they print
/// as and, where they have one, their value as a 64-bit signed integer.
/// Object entries come in the order of their keys.
pub enum JsonTree {
    Null,
    Bool(bool),
    Number(Seq<char>, Option<i64>),
    String(Seq<char>),
    Array(Seq<JsonTree>),
    Object(Seq<(Seq<char>, JsonTree)>),
}

/// A JSON number: the text it prints as, and its value as an `i64` where it
/// is an integer in that range.
#[derive(Debug, Clone, PartialEq)]
pub struct JsonNumber {
    pub text: String,
    pub integer: Option<i64>,
}

/// A JSON object: its entries, kept in increasing order of their keys by
/// [`JsonObject::insert`].
#[derive(Debug, PartialEq)]
pub struct JsonObject {
    pub entries: Vec<(String, JsonValue)>,
}

/// A JSON value.
#[derive(Debug, PartialEq)]
pub enum JsonValue {
    Null,
    Bool(bool),
    Number(JsonNumber),
    String(String),
    Array(Vec<JsonValue>),
    Object(JsonObject),
}

impl JsonValue {
    /// The model of this value.
    pub open spec fn tree(self) -> JsonTree
        decreases self,
    {
        match self {
            JsonValue::Null => JsonTree::Null,
            JsonValue::Bool(b) => JsonTree::Bool(b),
            JsonValue::Number(n) => JsonTree::Number(n.text@, n.integer),
            JsonValue::String(s) => JsonTree::String(s@),
            JsonValue::Array(a) => JsonTree::Array(
                Seq::new(
                    a@.len(),
                    |i: int|
                        if 0 <= i < a@.len() {
                            a@[i].tree()
                        } else {
                            JsonTree::Null
                        },
                ),
            ),
            JsonValue::Object(o) => JsonTree::Object(
                Seq::new(
                    o.entries@.len(),
                    |i: int|
                        if 0 <= i < o.entries@.len() {
                            (o.entries@[i].0@, o.entries@[i].1.tree())
                        } else {
                            (Seq::empty(), JsonTree::Null)
                        },
                ),
            ),
        }
    }
}

/// The models of a sequence of values.
pub open spec fn trees(vs: Seq<JsonValue>) -> Seq<JsonTree> {
    vs.map_values(|v: JsonValue| v.tree())
}

/// The model of a sequence of object entries.
pub open spec fn entry_trees(es: Seq<(String, JsonValue)>) -> Seq<(Seq<char>, JsonTree)> {
    es.map_values(|e: (String, JsonValue)| (e.0@, e.1.tree()))
}

impl JsonObject {
    /// The model of this object: its entries, keys and values by their models.
    pub open spec fn view(self) -> Seq<(Seq<char>, JsonTree)> {
        entry_trees(self.entries@)
    }
}

pub proof fn lemma_array_tree(a: Vec<JsonValue>)
    ensures
        JsonValue::Array(a).tree() == JsonTree::Array(trees(a@)),
{
    assert(JsonValue::Array(a).tree()->Array_0 =~= trees(a@));
}

pub proof fn lemma_object_tree(o: JsonObject)
    ensures
        JsonValue::Object(o).tree() == JsonTree::Object(o.view()),
{
    assert(JsonValue::Object(o).tree()->Object_0 =~= o.view());
}

/// Keys in the order `String` compares them: character by character, a
/// proper prefix first.
pub open spec fn key_lt(a: Seq<char>, b: Seq<char>) -> bool
    decreases a.len(),
{
    if b.len() == 0 {
        false
    } else if a.len() == 0 {
        true
    } else if a[0] != b[0] {
        (a[0] as u32) < (b[0] as u32)
    } else {
        key_lt(a.drop_first(), b.drop_first())
    }
}

/// Entries whose keys increase strictly.
pub open spec fn keys_sorted(es: Seq<(Seq<char>, JsonTree)>) -> bool {
    forall|i: int, j: int| 0 <= i < j < es.len() ==> key_lt(#[trigger] es[i].0, #[trigger] es[j].0)
}

pub proof fn lemma_key_lt_irreflexive(a: Seq<char>)
    ensures
        !key_lt(a, a),
    decreases a.len(),
{
    if a.len() > 0 {
        lemma_key_lt_irreflexive(a.drop_first());
    }
}

pub proof fn lemma_key_lt_transitive(a: Seq<char>, b: Seq<char>, c: Seq<char>)
    requires
        key_lt(a, b),
        key_lt(b, c),
    ensures
        key_lt(a, c),
    decreases a.len(),
{
    if a.len() > 0 && b.len() > 0 && c.len() > 0 && a[0] == b[0] && b[0] == c[0] {
        lemma_key_lt_transitive(a.drop_first(), b.drop_first(), c.drop_first());
    }
}

pub proof fn lemma_key_lt_total(a: Seq<char>, b: Seq<char>)
    ensures
        key_lt(a, b) || key_lt(b, a) || a == b,
    decreases a.len(),
{
    if a.len() > 0 && b.len() > 0 {
        if a[0] == b[0] {
            lemma_key_lt_total(a.drop_first(), b.drop_first());
            if a.drop_first() == b.drop_first() {
                assert(a =~= seq![a[0]] + a.drop_first());
                assert(b =~= seq![b[0]] + b.drop_first());
            }
        } else {
            let x = a[0] as u32;
            let y = b[0] as u32;
            assert(x != y) by {
                vstd::utf8::char_u32_cast(a[0], x);
                vstd::utf8::char_u32_cast(b[0], y);
            }
        }
    } else if a.len() == 0 && b.len() == 0 {
        assert(a =~= b);
    }
}

/// The number of leading entries whose keys come before `k`.
pub open spec fn lt_prefix(es: Seq<(Seq<char>, JsonTree)>, k: Seq<char>) -> nat
    decreases es.len(),
{
    if es.len() > 0 && key_lt(es[0].0, k) {
        1 + lt_prefix(es.drop_first(), k)
    } else {
        0
    }
}

/// The entries with `v` under `k`: in place of the entry at the first
/// position whose key does not come before `k` where that entry has key `k`,
/// otherwise as a new entry at that position.
pub open spec fn entries_with(es: Seq<(Seq<char>, JsonTree)>, k: Seq<char>, v: JsonTree) -> Seq<
    (Seq<char>, JsonTree),
> {
    let p = lt_prefix(es, k) as int;
    if p < es.len() && es[p].0 == k {
        es.update(p, (k, v))
    } else {
        es.insert(p, (k, v))
    }
}

/// The index of the first entry with key `k`, or the number of entries where
/// there is none.
pub open spec fn key_index(es: Seq<(Seq<char>, JsonTree)>, k: Seq<char>) -> nat
    decreases es.len(),
{
    if es.len() == 0 {
        0
    } else if es[0].0 == k {
        0
    } else {
        1 + key_index(es.drop_first(), k)
    }
}

/// The value of the first entry with key `k`, as `Map::get` gives it.
pub open spec fn entries_get(es: Seq<(Seq<char>, JsonTree)>, k: Seq<char>) -> Option<JsonTree> {
    if key_index(es, k) < es.len() {
        Some(es[key_index(es, k) as int].1)
    } else {
        None
    }
}

pub proof fn lemma_key_index(es: Seq<(Seq<char>, JsonTree)>, k: Seq<char>, i: int)
    requires
        0 <= i <= es.len(),
        forall|m: int| 0 <= m < i ==> es[m].0 != k,
        i == es.len() || es[i].0 == k,
    ensures
        key_index(es, k) == i,
    decreases i,
{
    if i > 0 {
        lemma_key_index(es.drop_first(), k, i - 1);
    }
}

pub proof fn lemma_key_index_bound(es: Seq<(Seq<char>, JsonTree)>, k: Seq<char>)
    ensures
        key_index(es, k) <= es.len(),
        key_index(es, k) < es.len() ==> es[key_index(es, k) as int].0 == k,
        forall|m: int| 0 <= m < key_index(es, k) ==> es[m].0 != k,
    decreases es.len(),
{
    if es.len() > 0 && es[0].0 != k {
        lemma_key_index_bound(es.drop_first(), k);
        assert forall|m: int| 0 <= m < key_index(es, k) implies es[m].0 != k by {
            if m > 0 {
                assert(es[m] == es.drop_first()[m - 1]);
            }
        }
    }
}

/// The model of `value.get(key)`: a field of an object, nothing otherwise.
pub open spec fn tree_get(t: JsonTree, key: Seq<char>) -> Option<JsonTree> {
    match t {
        JsonTree::Object(es) => entries_get(es, key),
        _ => None,
    }
}

/// The model of `value.as_str()`.
pub open spec fn tree_as_str(t: JsonTree) -> Option<Seq<char>> {
    match t {
        JsonTree::String(s) => Some(s),
        _ => None,
    }
}

/// The model of `value.as_i64()`.
pub open spec fn tree_as_i64(t: JsonTree) -> Option<i64> {
    match t {
        JsonTree::Number(_, i) => i,
        _ => None,
    }
}

/// The model of `value.as_array()`.
pub open spec fn tree_as_array(t: JsonTree) -> Option<Seq<JsonTree>> {
    match t {
        JsonTree::Array(a) => Some(a),
        _ => None,
    }
}

/// The model of `value.as_object()`.
pub open spec fn tree_as_object(t: JsonTree) -> Option<Seq<(Seq<char>, JsonTree)>> {
    match t {
        JsonTree::Object(es) => Some(es),
        _ => None,
    }
}

/// The objects among a sequence of values, in order.
pub open spec fn objects_of(vs: Seq<JsonTree>) -> Seq<Seq<(Seq<char>, JsonTree)>>
    decreases vs.len(),
{
    if vs.len() == 0 {
        Seq::empty()
    } else {
        match vs[0] {
            JsonTree::Object(es) => seq![es] + objects_of(vs.drop_first()),
            _ => objects_of(vs.drop_first()),
        }
    }
}

proof fn lemma_objects_of_append(a: Seq<JsonTree>, b: Seq<JsonTree>)
    ensures
        objects_of(a + b) == objects_of(a) + objects_of(b),
    decreases a.len(),
{
    if a.len() == 0 {
        assert(a + b =~= b);
        assert(objects_of(a) + objects_of(b) =~= objects_of(b));
    } else {
        assert((a + b).drop_first() =~= a.drop_first() + b);
        lemma_objects_of_append(a.drop_first(), b);
        assert((a + b)[0] == a[0]);
        if let JsonTree::Object(es) = a[0] {
            assert(objects_of(a + b) =~= seq![es] + (objects_of(a.drop_first()) + objects_of(b)));
        }
    }
}

/// Every object in a list is kept, in order, and nothing else: the objects
/// of a joined list are those of its parts, one object gives itself, any
/// other value gives nothing, so a list holding k objects gives k of them.
pub proof fn lemma_objects_kept(a: Seq<JsonTree>, b: Seq<JsonTree>, t: JsonTree)
    ensures
        objects_of(a + b) == objects_of(a) + objects_of(b),
        objects_of(Seq::empty()) == Seq::<Seq<(Seq<char>, JsonTree)>>::empty(),
        t matches JsonTree::Object(es) ==> objects_of(seq![t]) == seq![es],
        !(t is Object) ==> objects_of(seq![t]) == Seq::<Seq<(Seq<char>, JsonTree)>>::empty(),
        objects_of(a).len() <= a.len(),
{
    lemma_objects_of_append(a, b);
    assert(seq![t].drop_first() =~= Seq::<JsonTree>::empty());
    assert(seq![t][0] == t);
    assert(objects_of(Seq::<JsonTree>::empty()) =~= Seq::<Seq<(Seq<char>, JsonTree)>>::empty());
    if let JsonTree::Object(es) = t {
        assert(objects_of(seq![t]) =~= seq![es] + objects_of(Seq::<JsonTree>::empty()));
    } else {
        assert(objects_of(seq![t]) == objects_of(seq![t].drop_first()));
    }
    lemma_objects_of_len(a);
}

proof fn lemma_objects_of_len(a: Seq<JsonTree>)
    ensures
        objects_of(a).len() <= a.len(),
    decreases a.len(),
{
    if a.len() > 0 {
        lemma_objects_of_len(a.drop_first());
    }
}

/// A string that is not blank, trimmed; or the text of a number.
pub open spec fn non_empty_text(t: JsonTree) -> Option<Seq<char>> {
    match t {
        JsonTree::String(s) => if is_blank(s) {
            None
        } else {
            Some(trim(s))
        },
        JsonTree::Number(text, _) => Some(text),
        _ => None,
    }
}

/// A string as it stands, the text of a number, or `true` / `false`.
pub open spec fn scalar_text(t: JsonTree) -> Option<Seq<char>> {
    match t {
        JsonTree::String(s) => Some(s),
        JsonTree::Number(text, _) => Some(text),
        JsonTree::Bool(b) => Some(
            if b {
                seq!['t', 'r', 'u', 'e']
            } else {
                seq!['f', 'a', 'l', 's', 'e']
            },
        ),
        _ => None,
    }
}

/// The first of `keys`, in their order, that the entries hold with a
/// non-blank text value; that text.
pub open spec fn direct_key_text(es: Seq<(Seq<char>, JsonTree)>, keys: Seq<Seq<char>>) -> Option<
    Seq<char>,
>
    decreases keys.len(),
{
    if keys.len() == 0 {
        None
    } else {
        match entries_get(es, keys[0]) {
            Some(v) => match non_empty_text(v) {
                Some(s) => Some(s),
                None => direct_key_text(es, keys.drop_first()),
            },
            None => direct_key_text(es, keys.drop_first()),
        }
    }
}

/// The search for the first of `keys` in a JSON tree: in an object, its own
/// fields first (in the order of `keys`), then each field value in turn; in
/// an array, each element in turn.
pub open spec fn first_key_text(t: JsonTree, keys: Seq<Seq<char>>) -> Option<Seq<char>>
    decreases t, 0int,
{
    match t {
        JsonTree::Object(es) => match direct_key_text(es, keys) {
            Some(s) => Some(s),
            None => first_key_text_in_entries(es, keys, 0),
        },
        JsonTree::Array(vs) => first_key_text_in_seq(vs, keys, 0),
        _ => None,
    }
}

/// The search in the elements `vs[i..]`, in order.
pub open spec fn first_key_text_in_seq(vs: Seq<JsonTree>, keys: Seq<Seq<char>>, i: int) -> Option<
    Seq<char>,
>
    decreases vs, vs.len() - i,
{
    if 0 <= i < vs.len() {
        match first_key_text(vs[i], keys) {
            Some(s) => Some(s),
            None => first_key_text_in_seq(vs, keys, i + 1),
        }
    } else {
        None
    }
}

/// The search in the values of the entries `es[i..]`, in order.
pub open spec fn first_key_text_in_entries(
    es: Seq<(Seq<char>, JsonTree)>,
    keys: Seq<Seq<char>>,
    i: int,
) -> Option<Seq<char>>
    decreases es, es.len() - i,
{
    if 0 <= i < es.len() {
        match first_key_text(es[i].1, keys) {
            Some(s) => Some(s),
            None => first_key_text_in_entries(es, keys, i + 1),
        }
    } else {
        None
    }
}

/// The characters of each key.
pub open spec fn keys_view(keys: Seq<&str>) -> Seq<Seq<char>> {
    keys.map_values(|k: &str| k@)
}


/// The decimal digits of `n`.
pub open spec fn digits(n: nat) -> Seq<char>
    decreases n,
{
    if n < 10 {
        seq![digit_char(n)]
    } else {
        digits(n / 10).push(digit_char(n % 10))
    }
}

/// The character of a decimal digit.
pub open spec fn digit_char(d: nat) -> char {
    if d == 0 {
        '0'
    } else if d == 1 {
        '1'
    } else if d == 2 {
        '2'
    } else if d == 3 {
        '3'
    } else if d == 4 {
        '4'
    } else if d == 5 {
        '5'
    } else if d == 6 {
        '6'
    } else if d == 7 {
        '7'
    } else if d == 8 {
        '8'
    } else {
        '9'
    }
}

proof fn lemma_digit_char(d: nat)
    requires
        d < 10,
    ensures
        is_digit(digit_char(d)),
        d > 0 ==> digit_char(d) != '0',
{
}

proof fn lemma_digits_valid(n: nat)
    ensures
        digit_run(digits(n)),
        n >= 1 ==> digits(n)[0] != '0',
        json_int_part(digits(n)),
    decreases n,
{
    if n < 10 {
        lemma_digit_char(n);
    } else {
        lemma_digits_valid(n / 10);
        lemma_digit_char(n % 10);
        let p = digits(n / 10);
        assert forall|i: int| 0 <= i < digits(n).len() implies is_digit(#[trigger] digits(n)[i]) by {
            if i < p.len() {
                assert(digits(n)[i] == p[i]);
            }
        }
        assert(digits(n)[0] == p[0]);
    }
}

/// The decimal text of an integer is a JSON number literal.
pub proof fn lemma_decimal_text_valid(n: int)
    ensures
        json_number_text(decimal_text(n)),
{
    let e = Seq::<char>::empty();
    if n < 0 {
        let a = seq!['-'];
        let b = digits((-n) as nat);
        lemma_digits_valid((-n) as nat);
        assert(decimal_text(n) == a + b + e + e);
        assert(json_sign_part(a) && json_int_part(b) && json_frac_part(e) && json_exp_part(e));
    } else {
        let b = digits(n as nat);
        lemma_digits_valid(n as nat);
        assert(decimal_text(n) == e + b + e + e);
        assert(json_sign_part(e) && json_int_part(b) && json_frac_part(e) && json_exp_part(e));
    }
}

fn digit_of(d: u64) -> (c: char)
    requires
        d < 10,
    ensures
        c == digit_char(d as nat),
{
    match d {
        0 => '0',
        1 => '1',
        2 => '2',
        3 => '3',
        4 => '4',
        5 => '5',
        6 => '6',
        7 => '7',
        8 => '8',
        _ => '9',
    }
}

/// The decimal text of an integer, with a leading `-` for a negative one.
pub open spec fn decimal_text(n: int) -> Seq<char> {
    if n < 0 {
        seq!['-'] + digits((-n) as nat)
    } else {
        digits(n as nat)
    }
}

pub(crate) fn push_digits(s: &mut String, m: u64)
    ensures
        final(s)@ == old(s)@ + digits(m as nat),
    decreases m,
{
    if m >= 10 {
        push_digits(s, m / 10);
    }
    let c = digit_of(m % 10);
    s.push(c);
    proof {
        if m >= 10 {
            assert(old(s)@ + digits(m as nat) =~= old(s)@ + digits((m / 10) as nat) + seq![c]);
        } else {
            assert(old(s)@ + digits(m as nat) =~= old(s)@ + seq![c]);
        }
    }
}

impl JsonNumber {
    /// The number `n`, as JSON writes an integer.
    pub fn from_i64(n: i64) -> (r: JsonNumber)
        ensures
            r.text@ == decimal_text(n as int),
            r.integer == Some(n),
            json_number_text(r.text@),
    {
        proof {
            lemma_decimal_text_valid(n as int);
        }
        let mut text = String::new();
        if n < 0 {
            text.push('-');
            let m: u64 = if n == i64::MIN {
                9223372036854775808u64
            } else {
                (-n) as u64
            };
            push_digits(&mut text, m);
        } else {
            push_digits(&mut text, n as u64);
        }
        JsonNumber { text, integer: Some(n) }
    }
}

/// Whether `a` comes before `b` in the order of `String`.
pub fn key_less(a: &str, b: &str) -> (r: bool)
    ensures
        r == key_lt(a@, b@),
{
    let x = crate::text::chars_of(a);
    let y = crate::text::chars_of(b);
    let mut i: usize = 0;
    assert(x@.skip(0) =~= x@);
    assert(y@.skip(0) =~= y@);
    while i < x.len() && i < y.len() && x[i] == y[i]
        invariant
            i <= x.len(),
            i <= y.len(),
            key_lt(x@, y@) == key_lt(x@.skip(i as int), y@.skip(i as int)),
        decreases x.len() - i,
    {
        proof {
            assert(x@.skip(i as int).drop_first() =~= x@.skip(i + 1));
            assert(y@.skip(i as int).drop_first() =~= y@.skip(i + 1));
        }
        i = i + 1;
    }
    if i == y.len() {
        false
    } else if i == x.len() {
        true
    } else {
        (x[i] as u32) < (y[i] as u32)
    }
}

impl JsonObject {
    /// An object with no entries.
    pub fn new() -> (r: JsonObject)
        ensures
            r@ == Seq::<(Seq<char>, JsonTree)>::empty(),
            valid_tree(JsonTree::Object(r@)),
    {
        JsonObject { entries: Vec::new() }
    }

    /// The number of entries.
    pub fn len(&self) -> (r: usize)
        ensures
            r == self@.len(),
    {
        self.entries.len()
    }

    /// The position of the entry with key `key`, or the number of entries.
    fn position(&self, key: &str) -> (r: usize)
        ensures
            r == key_index(self@, key@),
            r <= self@.len(),
    {
        let mut i: usize = 0;
        while i < self.entries.len()
            invariant
                i <= self.entries.len(),
                forall|m: int| 0 <= m < i ==> self@[m].0 != key@,
            decreases self.entries.len() - i,
        {
            assert(self@[i as int] == (self.entries@[i as int].0@, self.entries@[i as int].1.tree()));
            if crate::text::str_eq(self.entries[i].0.as_str(), key) {
                proof {
                    lemma_key_index(self@, key@, i as int);
                }
                return i;
            }
            i = i + 1;
        }
        proof {
            lemma_key_index(self@, key@, i as int);
        }
        i
    }

    /// The value under `key`.
    pub fn get(&self, key: &str) -> (r: Option<&JsonValue>)
        ensures
            r matches Some(v) ==> entries_get(self@, key@) == Some(v.tree()),
            r is None ==> entries_get(self@, key@) is None,
    {
        let i = self.position(key);
        if i < self.entries.len() {
            Some(&self.entries[i].1)
        } else {
            None
        }
    }

    /// Puts `value` under `key`: in place of the entry with that key, or as a
    /// new entry before the first greater key. Gives back the value it
    /// replaced.
    pub fn insert(&mut self, key: String, value: JsonValue) -> (r: Option<JsonValue>)
        ensures
            final(self)@ == entries_with(old(self)@, key@, value.tree()),
            r matches Some(v) ==> entries_get(old(self)@, key@) == Some(v.tree()),
            entries_get(final(self)@, key@) == Some(value.tree()),
            forall|k: Seq<char>| k != key@ ==> entries_get(final(self)@, k) == entries_get(old(self)@, k),
            keys_sorted(old(self)@) ==> keys_sorted(final(self)@),
            keys_sorted(old(self)@) ==> match r {
                Some(v) => entries_get(old(self)@, key@) == Some(v.tree()),
                None => entries_get(old(self)@, key@) is None,
            },
            valid_tree(JsonTree::Object(old(self)@)) && valid_tree(value.tree()) ==> valid_tree(
                JsonTree::Object(final(self)@),
            ),
    {
        proof {
            lemma_entries_with_valid(self@, key@, value.tree());
        }
        let ghost old_es = self@;
        let mut p: usize = 0;
        assert(old_es.skip(0) =~= old_es);
        while p < self.entries.len() && key_less(self.entries[p].0.as_str(), key.as_str())
            invariant
                p <= self.entries.len(),
                lt_prefix(old_es, key@) == lt_prefix(old_es.skip(p as int), key@) + p,
                self@ == old_es,
                forall|m: int| 0 <= m < p ==> key_lt(#[trigger] old_es[m].0, key@),
            decreases self.entries.len() - p,
        {
            proof {
                assert(old_es[p as int] == (self.entries@[p as int].0@, self.entries@[p as int].1.tree()));
                assert(old_es.skip(p as int)[0] == old_es[p as int]);
                assert(old_es.skip(p as int).drop_first() =~= old_es.skip(p + 1));
            }
            p = p + 1;
        }
        proof {
            if p < old_es.len() {
                assert(old_es.skip(p as int)[0] == old_es[p as int]);
            }
            assert(lt_prefix(old_es.skip(p as int), key@) == 0);
        }
        let mut entries: Vec<(String, JsonValue)> = Vec::new();
        std::mem::swap(&mut entries, &mut self.entries);
        assert(entry_trees(entries@) == old_es);
        assert(forall|m: int|
            0 <= m < entries@.len() ==> old_es[m] == (#[trigger] entries@[m].0@, entries@[m].1.tree()));
        let found = p < entries.len() && crate::text::str_eq(entries[p].0.as_str(), key.as_str());
        assert(found <==> p < old_es.len() && old_es[p as int].0 == key@);
        let ghost new_entry = (key@, value.tree());
        let r;
        if found {
            let (_, old_value) = entries.remove(p);
            entries.insert(p, (key, value));
            r = Some(old_value);
            proof {
                assert(entry_trees(entries@) =~= old_es.update(p as int, new_entry));
            }
        } else {
            entries.insert(p, (key, value));
            r = None;
            proof {
                assert(entry_trees(entries@) =~= old_es.insert(p as int, new_entry));
            }
        }
        self.entries = entries;
        proof {
            let es = self@;
            if found {
                assert forall|m: int| 0 <= m < p implies old_es[m].0 != key@ by {
                    lemma_key_lt_irreflexive(key@);
                }
                lemma_key_index(old_es, key@, p as int);
            }
            assert forall|m: int| 0 <= m < p implies es[m].0 != key@ by {
                lemma_key_lt_irreflexive(key@);
                assert(es[m] == old_es[m]);
            }
            lemma_key_index(es, key@, p as int);
            assert forall|k: Seq<char>| k != key@ implies entries_get(es, k) == entries_get(old_es, k) by {
                lemma_key_index_bound(old_es, k);
                lemma_key_index_bound(es, k);
                let io = key_index(old_es, k) as int;
                let inew = key_index(es, k) as int;
                if found {
                    assert forall|m: int| 0 <= m < io implies es[m].0 != k by {
                        assert(es[m] == old_es.update(p as int, new_entry)[m]);
                    }
                    if io < old_es.len() {
                        assert(es[io] == old_es.update(p as int, new_entry)[io]);
                    }
                    lemma_key_index(es, k, io);
                } else {
                    let shifted = if io < p { io } else { io + 1 };
                    assert forall|m: int| 0 <= m < shifted implies es[m].0 != k by {
                        if m < p {
                            assert(es[m] == old_es[m]);
                        } else if m > p {
                            assert(es[m] == old_es[m - 1]);
                        }
                    }
                    if io < old_es.len() {
                        if io < p {
                            assert(es[io] == old_es[io]);
                        } else {
                            assert(es[io + 1] == old_es[io]);
                        }
                    }
                    lemma_key_index(es, k, shifted);
                }
            }
            if keys_sorted(old_es) {
                if !found && p < old_es.len() {
                    lemma_key_lt_total(old_es[p as int].0, key@);
                }
                assert forall|i: int, j: int| 0 <= i < j < es.len() implies key_lt(
                    #[trigger] es[i].0,
                    #[trigger] es[j].0,
                ) by {
                    if found {
                        assert(es[i] == old_es.update(p as int, new_entry)[i]);
                        assert(es[j] == old_es.update(p as int, new_entry)[j]);
                    } else {
                        if j < p {
                            assert(es[i] == old_es[i]);
                            assert(es[j] == old_es[j]);
                        } else if j == p {
                            assert(es[i] == old_es[i]);
                        } else if i < p {
                            assert(es[i] == old_es[i]);
                            assert(es[j] == old_es[j - 1]);
                            assert(key_lt(old_es[i].0, old_es[j - 1].0));
                        } else if i == p {
                            assert(es[j] == old_es[j - 1]);
                            if j - 1 > p {
                                lemma_key_lt_transitive(key@, old_es[p as int].0, old_es[j - 1].0);
                            }
                        } else {
                            assert(es[i] == old_es[i - 1]);
                            assert(es[j] == old_es[j - 1]);
                        }
                    }
                }
                if !found {
                    lemma_key_index_bound(old_es, key@);
                    let io = key_index(old_es, key@) as int;
                    if io < old_es.len() {
                        if io < p {
                            lemma_key_lt_irreflexive(key@);
                        } else if io > p {
                            lemma_key_lt_transitive(key@, old_es[p as int].0, old_es[io].0);
                            lemma_key_lt_irreflexive(key@);
                        }
                    }
                } else {
                    lemma_key_index(old_es, key@, p as int);
                }
            }
        }
        r
    }
}


fn clone_entries(es: &Vec<(String, JsonValue)>) -> (r: Vec<(String, JsonValue)>)
    ensures
        entry_trees(r@) == entry_trees(es@),
    decreases es, 1int,
{
    let mut r: Vec<(String, JsonValue)> = Vec::new();
    let mut i: usize = 0;
    while i < es.len()
        invariant
            i <= es.len(),
            entry_trees(r@) == entry_trees(es@).take(i as int),
        decreases es.len() - i,
    {
        proof {
            assert(decreases_to!(*es => es@[i as int].1)) by {
                assert(decreases_to!(*es => es@));
                assert(decreases_to!(es@ => es@[i as int]));
                assert(decreases_to!(es@[i as int] => es@[i as int].1));
            }
        }
        let k = es[i].0.clone();
        let v = clone_value(&es[i].1);
        let ghost prev = r@;
        r.push((k, v));
        i = i + 1;
        proof {
            assert(entry_trees(r@) =~= entry_trees(prev).push((k@, v.tree())));
            assert(entry_trees(es@).take(i as int) =~= entry_trees(es@).take(i - 1).push(
                entry_trees(es@)[i - 1],
            ));
        }
    }
    assert(entry_trees(es@).take(es.len() as int) =~= entry_trees(es@));
    r
}

fn clone_value(v: &JsonValue) -> (r: JsonValue)
    ensures
        r.tree() == v.tree(),
    decreases v, 0int,
{
    match v {
        JsonValue::Null => JsonValue::Null,
        JsonValue::Bool(b) => JsonValue::Bool(*b),
        JsonValue::Number(n) => JsonValue::Number(
            JsonNumber { text: n.text.clone(), integer: n.integer },
        ),
        JsonValue::String(s) => JsonValue::String(s.clone()),
        JsonValue::Array(a) => {
            let mut r: Vec<JsonValue> = Vec::new();
            let mut i: usize = 0;
            while i < a.len()
                invariant
                    i <= a.len(),
                    *v == JsonValue::Array(*a),
                    trees(r@) == trees(a@).take(i as int),
                decreases a.len() - i,
            {
                proof {
                    assert(decreases_to!(*v => a@[i as int])) by {
                        assert(v->Array_0 == *a);
                        assert(decreases_to!(*v => v->Array_0));
                        assert(decreases_to!(*a => a@));
                        assert(decreases_to!(a@ => a@[i as int]));
                    }
                }
                let e = clone_value(&a[i]);
                let ghost prev = r@;
                r.push(e);
                i = i + 1;
                proof {
                    assert(trees(r@) =~= trees(prev).push(e.tree()));
                    assert(trees(a@).take(i as int) =~= trees(a@).take(i - 1).push(trees(a@)[i - 1]));
                }
            }
            proof {
                assert(trees(a@).take(a.len() as int) =~= trees(a@));
                lemma_array_tree(*a);
                lemma_array_tree(r);
            }
            JsonValue::Array(r)
        },
        JsonValue::Object(o) => {
            proof {
                assert(decreases_to!(*v => o.entries)) by {
                    assert(decreases_to!(*v => *o));
                    assert(decreases_to!(*o => o.entries));
                }
            }
            let entries = clone_entries(&o.entries);
            proof {
                lemma_object_tree(*o);
                lemma_object_tree(JsonObject { entries });
            }
            JsonValue::Object(JsonObject { entries })
        },
    }
}

impl Clone for JsonValue {
    /// A copy with the same model.
    fn clone(&self) -> (r: JsonValue)
        ensures
            r.tree() == self.tree(),
    {
        clone_value(self)
    }
}

impl Clone for JsonObject {
    /// A copy with the same entries.
    fn clone(&self) -> (r: JsonObject)
        ensures
            r@ == self@,
    {
        JsonObject { entries: clone_entries(&self.entries) }
    }
}

/// The characters of an optional string.
pub open spec fn text_opt(o: Option<String>) -> Option<Seq<char>> {
    match o {
        Some(s) => Some(s@),
        None => None,
    }
}

impl JsonObject {
    /// Takes the value under `key` out of the object.
    pub fn into_value(self, key: &str) -> (r: Option<JsonValue>)
        ensures
            r matches Some(v) ==> entries_get(self@, key@) == Some(v.tree()),
            r is None ==> entries_get(self@, key@) is None,
    {
        let p = self.position(key);
        let mut entries = self.entries;
        if p < entries.len() {
            let (_, v) = entries.remove(p);
            Some(v)
        } else {
            None
        }
    }
}

impl JsonObject {
    /// Removes the entry with key `key`, giving back its value.
    pub fn remove(&mut self, key: &str) -> (r: Option<JsonValue>)
        ensures
            key_index(old(self)@, key@) < old(self)@.len() ==> final(self)@ == old(self)@.remove(
                key_index(old(self)@, key@) as int,
            ),
            key_index(old(self)@, key@) >= old(self)@.len() ==> final(self)@ == old(self)@,
            match r {
                Some(v) => entries_get(old(self)@, key@) == Some(v.tree()),
                None => entries_get(old(self)@, key@) is None,
            },
            entries_get(final(self)@, key@) is None || !keys_sorted(old(self)@),
            forall|k: Seq<char>| k != key@ ==> entries_get(final(self)@, k) == entries_get(old(self)@, k),
            keys_sorted(old(self)@) ==> keys_sorted(final(self)@),
            valid_tree(JsonTree::Object(old(self)@)) ==> valid_tree(JsonTree::Object(final(self)@)),
    {
        proof {
            lemma_key_index_bound(self@, key@);
            if key_index(self@, key@) < self@.len() {
                lemma_remove_valid(self@, key_index(self@, key@) as int);
            }
        }
        let ghost old_es = self@;
        let p = self.position(key);
        if p == self.entries.len() {
            proof {
                lemma_key_index_bound(old_es, key@);
            }
            return None;
        }
        let mut entries: Vec<(String, JsonValue)> = Vec::new();
        std::mem::swap(&mut entries, &mut self.entries);
        assert(entry_trees(entries@) == old_es);
        let (_, v) = entries.remove(p);
        self.entries = entries;
        proof {
            let es = self@;
            assert(es =~= old_es.remove(p as int));
            lemma_key_index_bound(old_es, key@);
            assert forall|k: Seq<char>| k != key@ implies entries_get(es, k) == entries_get(old_es, k) by {
                lemma_key_index_bound(old_es, k);
                let io = key_index(old_es, k) as int;
                let shifted = if io < p { io } else { io - 1 };
                if io != p {
                    assert forall|m: int| 0 <= m < shifted implies es[m].0 != k by {
                        if m < p {
                            assert(es[m] == old_es[m]);
                        } else {
                            assert(es[m] == old_es[m + 1]);
                        }
                    }
                    if io < old_es.len() {
                        if io < p {
                            assert(es[io] == old_es[io]);
                        } else {
                            assert(es[io - 1] == old_es[io]);
                        }
                    }
                    lemma_key_index(es, k, shifted);
                }
            }
            if keys_sorted(old_es) {
                assert forall|i: int, j: int| 0 <= i < j < es.len() implies key_lt(
                    #[trigger] es[i].0,
                    #[trigger] es[j].0,
                ) by {
                    let oi = if i < p { i } else { i + 1 };
                    let oj = if j < p { j } else { j + 1 };
                    assert(es[i] == old_es[oi]);
                    assert(es[j] == old_es[oj]);
                }
                lemma_key_index_bound(es, key@);
                let ki = key_index(es, key@) as int;
                if ki < es.len() {
                    let oi = if ki < p { ki } else { ki + 1 };
                    assert(es[ki] == old_es[oi]);
                    lemma_key_lt_irreflexive(key@);
                    if oi < p {
                        assert(key_lt(old_es[oi].0, old_es[p as int].0));
                    } else {
                        assert(key_lt(old_es[p as int].0, old_es[oi].0));
                    }
                }
            }
        }
        Some(v)
    }
}

impl JsonValue {
    /// The field `key` of an object; nothing for any other value.
    pub fn get(&self, key: &str) -> (r: Option<&JsonValue>)
        ensures
            r matches Some(v) ==> tree_get(self.tree(), key@) == Some(v.tree()),
            r is None ==> tree_get(self.tree(), key@) is None,
    {
        match self {
            JsonValue::Object(o) => {
                proof {
                    lemma_object_tree(*o);
                }
                o.get(key)
            },
            _ => None,
        }
    }

    /// Takes the field `key` out of an object; nothing for any other value.
    pub fn into_field(self, key: &str) -> (r: Option<JsonValue>)
        ensures
            r matches Some(v) ==> tree_get(self.tree(), key@) == Some(v.tree()),
            r is None ==> tree_get(self.tree(), key@) is None,
    {
        match self {
            JsonValue::Object(o) => {
                proof {
                    lemma_object_tree(o);
                }
                o.into_value(key)
            },
            _ => None,
        }
    }

    /// The text of a string value.
    pub fn as_str(&self) -> (r: Option<&str>)
        ensures
            match r {
                Some(s) => tree_as_str(self.tree()) == Some(s@),
                None => tree_as_str(self.tree()) is None,
            },
    {
        match self {
            JsonValue::String(s) => Some(s.as_str()),
            _ => None,
        }
    }

    /// The value of a number that is an integer in the range of `i64`.
    pub fn as_i64(&self) -> (r: Option<i64>)
        ensures
            r == tree_as_i64(self.tree()),
    {
        match self {
            JsonValue::Number(n) => n.integer,
            _ => None,
        }
    }

    /// The elements of an array.
    pub fn as_array(&self) -> (r: Option<&Vec<JsonValue>>)
        ensures
            match r {
                Some(a) => tree_as_array(self.tree()) == Some(trees(a@)),
                None => tree_as_array(self.tree()) is None,
            },
    {
        match self {
            JsonValue::Array(a) => {
                proof {
                    lemma_array_tree(*a);
                }
                Some(a)
            },
            _ => None,
        }
    }

    /// Takes the elements out of an array.
    pub fn into_array(self) -> (r: Option<Vec<JsonValue>>)
        ensures
            match r {
                Some(a) => tree_as_array(self.tree()) == Some(trees(a@)),
                None => tree_as_array(self.tree()) is None,
            },
    {
        match self {
            JsonValue::Array(a) => {
                proof {
                    lemma_array_tree(a);
                }
                Some(a)
            },
            _ => None,
        }
    }

    /// Takes the object out of an object value.
    pub fn into_object(self) -> (r: Option<JsonObject>)
        ensures
            match r {
                Some(o) => tree_as_object(self.tree()) == Some(o@),
                None => tree_as_object(self.tree()) is None,
            },
    {
        match self {
            JsonValue::Object(o) => {
                proof {
                    lemma_object_tree(o);
                }
                Some(o)
            },
            _ => None,
        }
    }
}

/// The objects among `vs`, in order; other values are dropped.
pub fn objects_in(vs: Vec<JsonValue>) -> (r: Vec<JsonObject>)
    ensures
        r@.map_values(|o: JsonObject| o@) == objects_of(trees(vs@)),
{
    let ghost all = trees(vs@);
    let mut rest = vs;
    let mut r: Vec<JsonObject> = Vec::new();
    assert(all.skip(0) =~= all);
    while rest.len() > 0
        invariant
            trees(rest@) == all.skip(all.len() - rest@.len()),
            rest@.len() <= all.len(),
            objects_of(all) == r@.map_values(|o: JsonObject| o@) + objects_of(trees(rest@)),
        decreases rest.len(),
    {
        let ghost before = rest@;
        let v = rest.remove(0);
        proof {
            assert(trees(rest@) =~= trees(before).drop_first());
            assert(trees(before)[0] == v.tree());
            assert(all.skip(all.len() - rest@.len()) =~= all.skip(all.len() - before.len()).drop_first());
        }
        match v {
            JsonValue::Object(o) => {
                proof {
                    lemma_object_tree(o);
                }
                let ghost prev = r@;
                r.push(o);
                proof {
                    assert(r@.map_values(|o: JsonObject| o@) =~= prev.map_values(|o: JsonObject| o@)
                        + seq![o@]);
                }
            },
            _ => {},
        }
    }
    proof {
        assert(objects_of(trees(rest@)) =~= Seq::empty());
        assert(objects_of(all) =~= r@.map_values(|o: JsonObject| o@));
    }
    r
}

/// A string value that is not blank, trimmed; or the text of a number.
pub fn as_non_empty_str(value: &JsonValue) -> (r: Option<String>)
    ensures
        text_opt(r) == non_empty_text(value.tree()),
        valid_tree(value.tree()) ==> (r matches Some(s) ==> clean_text(s@)),
{
    proof {
        if valid_tree(value.tree()) {
            lemma_non_empty_text_clean(value.tree());
        }
    }
    match value {
        JsonValue::String(s) => {
            let t = crate::text::trim_str(s.as_str());
            if t.as_str().is_empty() {
                None
            } else {
                Some(t)
            }
        },
        JsonValue::Number(n) => Some(n.text.clone()),
        _ => None,
    }
}

fn direct_key_in(o: &JsonObject, keys: &[&str]) -> (r: Option<String>)
    ensures
        text_opt(r) == direct_key_text(o@, keys_view(keys@)),
{
    let ghost ks = keys_view(keys@);
    let mut j: usize = 0;
    assert(ks.skip(0) =~= ks);
    while j < keys.len()
        invariant
            j <= keys.len(),
            ks == keys_view(keys@),
            direct_key_text(o@, ks) == direct_key_text(o@, ks.skip(j as int)),
        decreases keys.len() - j,
    {
        proof {
            assert(ks.skip(j as int)[0] == keys@[j as int]@);
            assert(ks.skip(j as int).drop_first() =~= ks.skip(j + 1));
        }
        match o.get(keys[j]) {
            Some(v) => {
                let s = as_non_empty_str(v);
                if s.is_some() {
                    return s;
                }
            },
            None => {},
        }
        j = j + 1;
    }
    None
}

impl JsonObject {
    /// The text under the first of `keys`, in their order, whose value is a
    /// non-blank string (trimmed) or a number.
    pub fn first_text_of(&self, keys: &[&str]) -> (r: Option<String>)
        ensures
            text_opt(r) == direct_key_text(self@, keys_view(keys@)),
    {
        direct_key_in(self, keys)
    }
}

fn first_key_in_object(o: &JsonObject, keys: &[&str]) -> (r: Option<String>)
    ensures
        text_opt(r) == first_key_text(JsonTree::Object(o@), keys_view(keys@)),
    decreases o, 1int,
{
    let ghost ks = keys_view(keys@);
    let direct = direct_key_in(o, keys);
    if direct.is_some() {
        return direct;
    }
    let ghost es = o@;
    let mut i: usize = 0;
    while i < o.entries.len()
        invariant
            i <= o.entries.len(),
            es == o@,
            ks == keys_view(keys@),
            direct_key_text(es, ks) is None,
            first_key_text_in_entries(es, ks, 0) == first_key_text_in_entries(es, ks, i as int),
        decreases o.entries.len() - i,
    {
        proof {
            assert(es[i as int].1 == o.entries@[i as int].1.tree());
            assert(decreases_to!(*o => o.entries@[i as int].1)) by {
                assert(decreases_to!(*o => o.entries));
                assert(decreases_to!(o.entries => o.entries@));
                assert(decreases_to!(o.entries@ => o.entries@[i as int]));
                assert(decreases_to!(o.entries@[i as int] => o.entries@[i as int].1));
            }
        }
        let found = first_key_in_value(&o.entries[i].1, keys);
        if found.is_some() {
            assert(first_key_text_in_entries(es, ks, i as int) == text_opt(found));
            return found;
        }
        i = i + 1;
    }
    None
}

fn first_key_in_value(value: &JsonValue, keys: &[&str]) -> (r: Option<String>)
    ensures
        text_opt(r) == first_key_text(value.tree(), keys_view(keys@)),
    decreases value, 0int,
{
    let ghost ks = keys_view(keys@);
    match value {
        JsonValue::Object(o) => {
            proof {
                assert(*value == JsonValue::Object(*o));
                lemma_object_tree(*o);
            }
            first_key_in_object(o, keys)
        },
        JsonValue::Array(a) => {
            proof {
                lemma_array_tree(*a);
            }
            let ghost vs = trees(a@);
            let mut i: usize = 0;
            while i < a.len()
                invariant
                    i <= a.len(),
                    vs == trees(a@),
                    ks == keys_view(keys@),
                    *value == JsonValue::Array(*a),
                    value.tree() == JsonTree::Array(vs),
                    first_key_text_in_seq(vs, ks, 0) == first_key_text_in_seq(vs, ks, i as int),
                decreases a.len() - i,
            {
                proof {
                    assert(vs[i as int] == a@[i as int].tree());
                    assert(decreases_to!(*value => a@[i as int])) by {
                        assert(decreases_to!(*value => *a));
                        assert(decreases_to!(*a => a@));
                        assert(decreases_to!(a@ => a@[i as int]));
                    }
                }
                let found = first_key_in_value(&a[i], keys);
                if found.is_some() {
                    assert(first_key_text_in_seq(vs, ks, i as int) == text_opt(found));
                    return found;
                }
                i = i + 1;
            }
            None
        },
        _ => None,
    }
}

/// Searches a JSON value for the first of `keys` that holds a non-blank
/// string or a number: an object's own fields first, in the order of `keys`,
/// then its field values in turn; an array's elements in turn.
pub fn find_first_key(value: &JsonValue, keys: &[&str]) -> (r: Option<String>)
    ensures
        text_opt(r) == first_key_text(value.tree(), keys_view(keys@)),
        valid_tree(value.tree()) ==> (r matches Some(s) ==> clean_text(s@)),
{
    proof {
        if valid_tree(value.tree()) {
            lemma_found_text_is_clean(value.tree(), keys_view(keys@));
        }
    }
    first_key_in_value(value, keys)
}

/// [`find_first_key`] on an object.
pub fn find_first_key_in_object(object: &JsonObject, keys: &[&str]) -> (r: Option<String>)
    ensures
        text_opt(r) == first_key_text(JsonTree::Object(object@), keys_view(keys@)),
        valid_tree(JsonTree::Object(object@)) ==> (r matches Some(s) ==> clean_text(s@)),
{
    proof {
        if valid_tree(JsonTree::Object(object@)) {
            lemma_found_text_is_clean(JsonTree::Object(object@), keys_view(keys@));
        }
    }
    first_key_in_object(object, keys)
}

impl JsonValue {
    /// The number zero.
    pub fn zero() -> (r: JsonValue)
        ensures
            r.tree() == JsonTree::Number(seq!['0'], Some(0i64)),
            valid_tree(r.tree()),
    {
        let n = JsonNumber::from_i64(0);
        proof {
            reveal_with_fuel(digits, 1);
        }
        JsonValue::Number(n)
    }
}

/// A string as it stands, the text of a number, or `true` / `false`.
pub fn scalar_as_string(value: &JsonValue) -> (r: Option<String>)
    ensures
        text_opt(r) == scalar_text(value.tree()),
{
    match value {
        JsonValue::String(s) => Some(s.clone()),
        JsonValue::Number(n) => Some(n.text.clone()),
        JsonValue::Bool(b) => {
            let mut t = String::new();
            if *b {
                t.push('t');
                t.push('r');
                t.push('u');
                t.push('e');
                assert(t@ =~= seq!['t', 'r', 'u', 'e']);
            } else {
                t.push('f');
                t.push('a');
                t.push('l');
                t.push('s');
                t.push('e');
                assert(t@ =~= seq!['f', 'a', 'l', 's', 'e']);
            }
            Some(t)
        },
        _ => None,
    }
}

#[verifier::external_type_specification]
#[verifier::external_body]
pub struct ExSerdeJsonError(SerdeJsonError);

#[verifier::external_type_specification]
#[verifier::external_body]
pub struct ExSerdeJsonValue(serde_json::Value);

/// The tree that `serde_json::from_str::<serde_json::Value>` reads from a
/// text, objects in the key order of `serde_json::Map`; nothing where it
/// refuses the text.
pub uninterp spec fn serde_json_value_from_str(text: Seq<char>) -> Option<JsonTree>;

/// Moves a `serde_json::Value` into a [`JsonValue`], variant for variant; a
/// number keeps the text it displays as and `Number::as_i64`, an object its
/// entries in the map's own order.
#[verifier::external_body]
fn value_from_serde(value: serde_json::Value) -> JsonValue {
    match value {
        serde_json::Value::Null => JsonValue::Null,
        serde_json::Value::Bool(b) => JsonValue::Bool(b),
        serde_json::Value::Number(n) => JsonValue::Number(
            JsonNumber { text: n.to_string(), integer: n.as_i64() },
        ),
        serde_json::Value::String(s) => JsonValue::String(s),
        serde_json::Value::Array(a) => JsonValue::Array(a.into_iter().map(value_from_serde).collect()),
        serde_json::Value::Object(m) => JsonValue::Object(
            JsonObject { entries: m.into_iter().map(|(k, v)| (k, value_from_serde(v))).collect() },
        ),
    }
}

/// Parses JSON text with `serde_json::from_str::<serde_json::Value>`. What it
/// gives back is named, not described: the tree of an accepted text, and
/// failure exactly where that name holds nothing.
#[verifier::external_body]
pub(crate) fn parse_json_text(text: &str) -> (r: core::result::Result<JsonValue, SerdeJsonError>)
    ensures
        match r {
            Ok(v) => serde_json_value_from_str(text@) == Some(v.tree()),
            Err(_) => serde_json_value_from_str(text@) is None,
        },
{
    match serde_json::from_str::<serde_json::Value>(text) {
        Ok(v) => Ok(value_from_serde(v)),
        Err(e) => Err(e),
    }
}

/// The compact text `serde_json` writes for an object whose fields are the
/// given keys with string or `null` values (a key given twice keeps its last
/// value).
pub uninterp spec fn serde_json_object_text(fields: Seq<(Seq<char>, Option<Seq<char>>)>) -> Seq<char>;

/// The keys and values of a list of string-or-null fields.
pub open spec fn field_texts(fields: Seq<(String, Option<String>)>) -> Seq<(Seq<char>, Option<Seq<char>>)> {
    fields.map_values(|f: (String, Option<String>)| (f.0@, text_opt(f.1)))
}

/// Writes, with `serde_json`, the JSON object of the given fields: each goes
/// into a `serde_json::Map` as a string or `null`, and `Value::to_string`
/// writes the object. What it writes is named, not described.
#[verifier::external_body]
pub(crate) fn object_text(fields: &Vec<(String, Option<String>)>) -> (r: String)
    ensures
        r@ == serde_json_object_text(field_texts(fields@)),
{
    let mut map = serde_json::Map::new();
    for (k, v) in fields {
        let value = match v {
            Some(s) => serde_json::Value::String(s.clone()),
            None => serde_json::Value::Null,
        };
        map.insert(k.clone(), value);
    }
    serde_json::Value::Object(map).to_string()
}

/// A key that an object holds itself, with a non-blank text, is found before
/// anything nested: the search of an object gives its own first match.
pub proof fn lemma_own_fields_first(es: Seq<(Seq<char>, JsonTree)>, keys: Seq<Seq<char>>)
    requires
        direct_key_text(es, keys) is Some,
    ensures
        first_key_text(JsonTree::Object(es), keys) == direct_key_text(es, keys),
{
}

/// A decimal digit.
pub open spec fn is_digit(c: char) -> bool {
    0x30 <= (c as u32) <= 0x39
}

/// One or more decimal digits.
pub open spec fn digit_run(s: Seq<char>) -> bool {
    s.len() > 0 && forall|i: int| 0 <= i < s.len() ==> is_digit(#[trigger] s[i])
}

/// The integer part of a JSON number: `0`, or digits that do not start
/// with `0`.
pub open spec fn json_int_part(s: Seq<char>) -> bool {
    digit_run(s) && (s[0] == '0' ==> s.len() == 1)
}

/// The fraction of a JSON number: nothing, or `.` and digits.
pub open spec fn json_frac_part(s: Seq<char>) -> bool {
    s.len() == 0 || (s[0] == '.' && digit_run(s.drop_first()))
}

/// The exponent of a JSON number: nothing, or `e` / `E`, an optional sign
/// and digits.
pub open spec fn json_exp_part(s: Seq<char>) -> bool {
    s.len() == 0 || ((s[0] == 'e' || s[0] == 'E') && (digit_run(s.drop_first()) || (s.len() > 1
        && (s[1] == '+' || s[1] == '-') && digit_run(s.skip(2)))))
}

/// The sign of a JSON number: nothing or `-`.
pub open spec fn json_sign_part(s: Seq<char>) -> bool {
    s.len() == 0 || s == seq!['-']
}

/// A JSON number literal (RFC 8259): sign, integer part, fraction, exponent.
pub open spec fn json_number_text(s: Seq<char>) -> bool {
    exists|a: Seq<char>, b: Seq<char>, c: Seq<char>, d: Seq<char>|
        #![trigger json_sign_part(a), json_int_part(b), json_frac_part(c), json_exp_part(d)]
        s == a + b + c + d && json_sign_part(a) && json_int_part(b) && json_frac_part(c)
            && json_exp_part(d)
}

/// A well-formed JSON value: each number's text is a JSON number literal
/// and each object's keys strictly increase, at every depth.
pub open spec fn valid_tree(t: JsonTree) -> bool
    decreases t, 0int,
{
    match t {
        JsonTree::Number(text, _) => json_number_text(text),
        JsonTree::Array(vs) => valid_seq(vs, 0),
        JsonTree::Object(es) => keys_sorted(es) && valid_entries(es, 0),
        _ => true,
    }
}

/// The elements `vs[i..]` are well-formed.
pub open spec fn valid_seq(vs: Seq<JsonTree>, i: int) -> bool
    decreases vs, vs.len() - i,
{
    if 0 <= i < vs.len() {
        valid_tree(vs[i]) && valid_seq(vs, i + 1)
    } else {
        true
    }
}

/// The values of the entries `es[i..]` are well-formed.
pub open spec fn valid_entries(es: Seq<(Seq<char>, JsonTree)>, i: int) -> bool
    decreases es, es.len() - i,
{
    if 0 <= i < es.len() {
        valid_tree(es[i].1) && valid_entries(es, i + 1)
    } else {
        true
    }
}

proof fn lemma_valid_entries_at(es: Seq<(Seq<char>, JsonTree)>, i: int, j: int)
    requires
        valid_entries(es, i),
        0 <= i <= j < es.len(),
    ensures
        valid_tree(es[j].1),
    decreases j - i,
{
    if i < j {
        lemma_valid_entries_at(es, i + 1, j);
    }
}

proof fn lemma_valid_entries_from(es: Seq<(Seq<char>, JsonTree)>, i: int)
    requires
        0 <= i,
        forall|j: int| i <= j < es.len() ==> #[trigger] valid_tree(es[j].1),
    ensures
        valid_entries(es, i),
    decreases es.len() - i,
{
    if i < es.len() {
        assert(valid_tree(es[i].1));
        lemma_valid_entries_from(es, i + 1);
    }
}

proof fn lemma_entries_with_valid(es: Seq<(Seq<char>, JsonTree)>, k: Seq<char>, v: JsonTree)
    ensures
        valid_entries(es, 0) && valid_tree(v) ==> valid_entries(entries_with(es, k, v), 0),
{
    if valid_entries(es, 0) && valid_tree(v) {
        let r = entries_with(es, k, v);
        let p = lt_prefix(es, k) as int;
        lemma_lt_prefix_bound(es, k);
        assert forall|j: int| 0 <= j < r.len() implies #[trigger] valid_tree(r[j].1) by {
            if p < es.len() && es[p].0 == k {
                if j != p {
                    lemma_valid_entries_at(es, 0, j);
                }
            } else {
                if j < p {
                    lemma_valid_entries_at(es, 0, j);
                } else if j > p {
                    lemma_valid_entries_at(es, 0, j - 1);
                }
            }
        }
        lemma_valid_entries_from(r, 0);
    }
}

proof fn lemma_lt_prefix_bound(es: Seq<(Seq<char>, JsonTree)>, k: Seq<char>)
    ensures
        lt_prefix(es, k) <= es.len(),
    decreases es.len(),
{
    if es.len() > 0 && key_lt(es[0].0, k) {
        lemma_lt_prefix_bound(es.drop_first(), k);
    }
}

proof fn lemma_remove_valid(es: Seq<(Seq<char>, JsonTree)>, p: int)
    requires
        0 <= p < es.len(),
    ensures
        valid_tree(JsonTree::Object(es)) ==> valid_tree(JsonTree::Object(es.remove(p))),
{
    if valid_tree(JsonTree::Object(es)) {
        let r = es.remove(p);
        assert forall|i: int, j: int| 0 <= i < j < r.len() implies key_lt(#[trigger] r[i].0, #[trigger] r[j].0) by {
            let oi = if i < p { i } else { i + 1 };
            let oj = if j < p { j } else { j + 1 };
            assert(r[i] == es[oi]);
            assert(r[j] == es[oj]);
        }
        assert forall|j: int| 0 <= j < r.len() implies #[trigger] valid_tree(r[j].1) by {
            if j < p {
                lemma_valid_entries_at(es, 0, j);
            } else {
                lemma_valid_entries_at(es, 0, j + 1);
            }
        }
        lemma_valid_entries_from(r, 0);
    }
}

/// A text that is not empty and is its own trim.
pub open spec fn clean_text(s: Seq<char>) -> bool {
    s.len() > 0 && trim(s) == s
}

proof fn lemma_digit_not_ws(c: char)
    requires
        is_digit(c),
    ensures
        !crate::text::is_ws(c),
{
}

/// A JSON number literal has no whitespace at its ends.
pub proof fn lemma_number_text_clean(s: Seq<char>)
    requires
        json_number_text(s),
    ensures
        clean_text(s),
{
    let (a, b, c, d) = choose|a: Seq<char>, b: Seq<char>, c: Seq<char>, d: Seq<char>|
        #![trigger json_sign_part(a), json_int_part(b), json_frac_part(c), json_exp_part(d)]
        s == a + b + c + d && json_sign_part(a) && json_int_part(b) && json_frac_part(c)
            && json_exp_part(d);
    assert(s.len() > 0);
    if a.len() == 0 {
        assert(s[0] == b[0]);
        lemma_digit_not_ws(b[0]);
    } else {
        assert(s[0] == a[0]);
        assert(a[0] == '-');
    }
    if d.len() > 0 {
        assert(s.last() == d.last());
        if digit_run(d.drop_first()) {
            assert(d.last() == d.drop_first().last());
            lemma_digit_not_ws(d.drop_first()[d.drop_first().len() - 1]);
        } else {
            assert(d.last() == d.skip(2).last());
            lemma_digit_not_ws(d.skip(2)[d.skip(2).len() - 1]);
        }
    } else if c.len() > 0 {
        assert(s.last() == c.last());
        assert(c.last() == c.drop_first().last());
        lemma_digit_not_ws(c.drop_first()[c.drop_first().len() - 1]);
    } else {
        assert(s.last() == b.last());
        lemma_digit_not_ws(b[b.len() - 1]);
    }
    crate::text::lemma_trim_fixed(s);
}

proof fn lemma_non_empty_text_clean(t: JsonTree)
    requires
        valid_tree(t),
    ensures
        non_empty_text(t) matches Some(s) ==> clean_text(s),
{
    match t {
        JsonTree::String(s) => {
            crate::text::lemma_trim_idempotent(s);
        },
        JsonTree::Number(text, _) => {
            lemma_number_text_clean(text);
        },
        _ => {},
    }
}

proof fn lemma_direct_key_text_clean(es: Seq<(Seq<char>, JsonTree)>, keys: Seq<Seq<char>>)
    requires
        valid_entries(es, 0),
    ensures
        direct_key_text(es, keys) matches Some(s) ==> clean_text(s),
    decreases keys.len(),
{
    if keys.len() > 0 {
        lemma_key_index_bound(es, keys[0]);
        if key_index(es, keys[0]) < es.len() {
            lemma_valid_entries_at(es, 0, key_index(es, keys[0]) as int);
            lemma_non_empty_text_clean(es[key_index(es, keys[0]) as int].1);
        }
        lemma_direct_key_text_clean(es, keys.drop_first());
    }
}

/// What the key search finds in a well-formed value is a non-empty text
/// without whitespace at its ends: a non-blank string, trimmed, or a
/// number literal.
pub proof fn lemma_found_text_is_clean(t: JsonTree, keys: Seq<Seq<char>>)
    requires
        valid_tree(t),
    ensures
        first_key_text(t, keys) matches Some(s) ==> clean_text(s),
    decreases t, 0int,
{
    match t {
        JsonTree::Object(es) => {
            lemma_direct_key_text_clean(es, keys);
            lemma_found_in_entries_clean(es, keys, 0);
        },
        JsonTree::Array(vs) => {
            lemma_found_in_seq_clean(vs, keys, 0);
        },
        _ => {},
    }
}

proof fn lemma_found_in_seq_clean(vs: Seq<JsonTree>, keys: Seq<Seq<char>>, i: int)
    requires
        valid_seq(vs, i),
    ensures
        first_key_text_in_seq(vs, keys, i) matches Some(s) ==> clean_text(s),
    decreases vs, vs.len() - i,
{
    if 0 <= i < vs.len() {
        lemma_found_text_is_clean(vs[i], keys);
        lemma_found_in_seq_clean(vs, keys, i + 1);
    }
}

proof fn lemma_found_in_entries_clean(es: Seq<(Seq<char>, JsonTree)>, keys: Seq<Seq<char>>, i: int)
    requires
        valid_entries(es, i),
    ensures
        first_key_text_in_entries(es, keys, i) matches Some(s) ==> clean_text(s),
    decreases es, es.len() - i,
{
    if 0 <= i < es.len() {
        lemma_found_text_is_clean(es[i].1, keys);
        lemma_found_in_entries_clean(es, keys, i + 1);
    }
}

} // verus!
