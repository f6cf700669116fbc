use vstd::prelude::*;

use crate::object::{
    kind_text, lemma_array_model, lemma_hash_model, objects_model, pairs_model, HashEntries, Object,
    Value,
};

verus! {

/// Position of a key's kind in the order of keys; 5 for kinds that cannot be keys.
pub open spec fn key_rank(v: Value) -> int {
    match v {
        Value::Integer(_) => 0,
        Value::Boolean(_) => 1,
        Value::Str(_) => 2,
        Value::Array(_) => 3,
        Value::Null => 4,
        _ => 5,
    }
}

/// Integers, booleans, strings and null.
pub open spec fn scalar(v: Value) -> bool {
    v is Integer || v is Boolean || v is Str || v is Null
}

/// Hash keys: scalars, and arrays of scalars.
pub open spec fn hashable(v: Value) -> bool {
    scalar(v) || (v is Array && forall|i: int|
        0 <= i < v->Array_0.len() ==> scalar(#[trigger] v->Array_0[i]))
}

/// The order of scalar keys: by kind, then by value.
pub open spec fn scalar_less(a: Value, b: Value) -> bool {
    if key_rank(a) != key_rank(b) {
        key_rank(a) < key_rank(b)
    } else {
        match (a, b) {
            (Value::Integer(x), Value::Integer(y)) => x < y,
            (Value::Boolean(x), Value::Boolean(y)) => !x && y,
            (Value::Str(x), Value::Str(y)) => chars_less(x, y),
            _ => false,
        }
    }
}

/// Lexicographic order on sequences of scalars.
pub open spec fn seq_less(a: Seq<Value>, b: Seq<Value>) -> bool
    decreases a.len(),
{
    if a.len() == 0 {
        b.len() > 0
    } else if b.len() == 0 {
        false
    } else if a[0] != b[0] {
        scalar_less(a[0], b[0])
    } else {
        seq_less(a.drop_first(), b.drop_first())
    }
}

/// Lexicographic order on character sequences.
pub open spec fn chars_less(a: Seq<char>, b: Seq<char>) -> bool
    decreases a.len(),
{
    if a.len() == 0 {
        b.len() > 0
    } else if b.len() == 0 {
        false
    } else if a[0] != b[0] {
        a[0] < b[0]
    } else {
        chars_less(a.drop_first(), b.drop_first())
    }
}

/// The order of hash keys: by kind, then by value; arrays lexicographically.
pub open spec fn key_less(a: Value, b: Value) -> bool {
    match (a, b) {
        (Value::Array(x), Value::Array(y)) => seq_less(x, y),
        _ => scalar_less(a, b),
    }
}

/// Index of the first entry at or after `i` whose key is `k`, or -1.
pub open spec fn hash_find(s: Seq<(Value, Value)>, k: Value, i: int) -> int
    decreases s.len() - i,
{
    if i < 0 || i >= s.len() {
        -1
    } else if hashable(s[i].0) && s[i].0 == k {
        i
    } else {
        hash_find(s, k, i + 1)
    }
}

/// The value stored under `k`, if any.
pub open spec fn hash_get(s: Seq<(Value, Value)>, k: Value) -> Option<Value> {
    let i = hash_find(s, k, 0);
    if 0 <= i < s.len() {
        Some(s[i].1)
    } else {
        None
    }
}

/// Where `k` goes: the first entry at or after `i` whose key is not below `k`.
pub open spec fn put_index(s: Seq<(Value, Value)>, k: Value, i: int) -> int
    decreases s.len() - i,
{
    if i < 0 || i >= s.len() {
        s.len() as int
    } else if key_less(s[i].0, k) {
        put_index(s, k, i + 1)
    } else {
        i
    }
}

/// `s` with `k` bound to `v`: an entry with key `k` is replaced, otherwise
/// the entry goes in before the first key not below `k`.
pub open spec fn hash_put(s: Seq<(Value, Value)>, k: Value, v: Value) -> Seq<(Value, Value)> {
    let i = put_index(s, k, 0);
    if 0 <= i < s.len() && s[i].0 == k {
        s.update(i, (k, v))
    } else {
        s.insert(i, (k, v))
    }
}

/// Keys are hash keys, in strictly increasing order (so each occurs once).
pub open spec fn keys_sorted(s: Seq<(Value, Value)>) -> bool {
    &&& forall|i: int| 0 <= i < s.len() ==> hashable(#[trigger] s[i].0)
    &&& forall|i: int, j: int| 0 <= i < j < s.len() ==> key_less(#[trigger] s[i].0, #[trigger] s[j].0)
}

proof fn lemma_chars_less_irreflexive(a: Seq<char>)
    ensures
        !chars_less(a, a),
    decreases a.len(),
{
    if a.len() > 0 {
        lemma_chars_less_irreflexive(a.drop_first());
    }
}

proof fn lemma_chars_less_transitive(a: Seq<char>, b: Seq<char>, c: Seq<char>)
    requires
        chars_less(a, b),
        chars_less(b, c),
    ensures
        chars_less(a, c),
    decreases a.len(),
{
    if a.len() > 0 && b.len() > 0 && c.len() > 0 && a[0] == b[0] && b[0] == c[0] {
        lemma_chars_less_transitive(a.drop_first(), b.drop_first(), c.drop_first());
    }
}

proof fn lemma_chars_less_total(a: Seq<char>, b: Seq<char>)
    requires
        a != b,
    ensures
        chars_less(a, b) || chars_less(b, a),
    decreases a.len(),
{
    if a.len() > 0 && b.len() > 0 {
        if a[0] == b[0] {
            if a.drop_first() == b.drop_first() {
                assert(a =~= seq![a[0]] + a.drop_first());
                assert(b =~= seq![b[0]] + b.drop_first());
            }
            lemma_chars_less_total(a.drop_first(), b.drop_first());
        }
    } else if a.len() == 0 && b.len() == 0 {
        assert(a =~= b);
    }
}

proof fn lemma_scalar_order(a: Value, b: Value, c: Value)
    requires
        scalar(a),
        scalar(b),
        scalar(c),
    ensures
        !scalar_less(a, a),
        scalar_less(a, b) && scalar_less(b, c) ==> scalar_less(a, c),
        a != b ==> scalar_less(a, b) || scalar_less(b, a),
{
    if let Value::Str(x) = a {
        lemma_chars_less_irreflexive(x);
    }
    if key_less(a, b) && key_less(b, c) {
        if let (Value::Str(x), Value::Str(y), Value::Str(z)) = (a, b, c) {
            lemma_chars_less_transitive(x, y, z);
        }
    }
    if a != b {
        if let (Value::Str(x), Value::Str(y)) = (a, b) {
            lemma_chars_less_total(x, y);
        }
    }
}

pub open spec fn all_scalar(x: Seq<Value>) -> bool {
    forall|i: int| 0 <= i < x.len() ==> scalar(#[trigger] x[i])
}

proof fn lemma_seq_order(x: Seq<Value>, y: Seq<Value>, z: Seq<Value>)
    requires
        all_scalar(x),
        all_scalar(y),
        all_scalar(z),
    ensures
        !seq_less(x, x),
        seq_less(x, y) && seq_less(y, z) ==> seq_less(x, z),
        x != y ==> seq_less(x, y) || seq_less(y, x),
    decreases x.len(),
{
    if x.len() > 0 {
        assert(all_scalar(x.drop_first()));
        if y.len() > 0 {
            assert(all_scalar(y.drop_first()));
            if z.len() > 0 {
                assert(all_scalar(z.drop_first()));
                lemma_scalar_order(x[0], y[0], z[0]);
                lemma_scalar_order(y[0], z[0], x[0]);
                lemma_scalar_order(z[0], x[0], y[0]);
                lemma_seq_order(x.drop_first(), y.drop_first(), z.drop_first());
            } else {
                lemma_scalar_order(x[0], y[0], y[0]);
                lemma_seq_order(x.drop_first(), y.drop_first(), y.drop_first());
            }
            if x[0] == y[0] && x.drop_first() == y.drop_first() {
                assert(x =~= seq![x[0]] + x.drop_first());
                assert(y =~= seq![y[0]] + y.drop_first());
            }
        } else {
            lemma_scalar_order(x[0], x[0], x[0]);
            lemma_seq_order(x.drop_first(), x.drop_first(), x.drop_first());
        }
    } else if y.len() == 0 {
        assert(x =~= y);
    }
}

/// The order of hash keys is a strict total order on hash keys.
pub proof fn lemma_key_order(a: Value, b: Value, c: Value)
    requires
        hashable(a),
        hashable(b),
        hashable(c),
    ensures
        !key_less(a, a),
        key_less(a, b) && key_less(b, c) ==> key_less(a, c),
        a != b ==> key_less(a, b) || key_less(b, a),
{
    if scalar(a) && scalar(b) && scalar(c) {
        lemma_scalar_order(a, b, c);
    }
    if let Value::Array(x) = a {
        assert(all_scalar(x));
        lemma_seq_order(x, x, x);
        if let Value::Array(y) = b {
            assert(all_scalar(y));
            if let Value::Array(z) = c {
                assert(all_scalar(z));
                lemma_seq_order(x, y, z);
            } else {
                lemma_seq_order(x, y, y);
            }
        }
    }
    if scalar(a) {
        lemma_scalar_order(a, a, a);
        if scalar(b) {
            lemma_scalar_order(a, b, b);
        }
    }
}

proof fn lemma_put_index_facts(s: Seq<(Value, Value)>, k: Value, i: int)
    requires
        0 <= i <= s.len(),
        forall|j: int| 0 <= j < i ==> key_less(#[trigger] s[j].0, k),
    ensures
        i <= put_index(s, k, i) <= s.len(),
        forall|j: int| 0 <= j < put_index(s, k, i) ==> key_less(#[trigger] s[j].0, k),
        put_index(s, k, i) < s.len() ==> !key_less(s[put_index(s, k, i)].0, k),
    decreases s.len() - i,
{
    if i < s.len() && key_less(s[i].0, k) {
        lemma_put_index_facts(s, k, i + 1);
    }
}

/// Binding a hash key keeps the keys sorted.
pub proof fn lemma_hash_put_sorted(s: Seq<(Value, Value)>, k: Value, v: Value)
    requires
        keys_sorted(s),
        hashable(k),
    ensures
        keys_sorted(hash_put(s, k, v)),
{
    lemma_put_index_facts(s, k, 0);
    let i = put_index(s, k, 0);
    let r = hash_put(s, k, v);
    if 0 <= i < s.len() && s[i].0 == k {
        assert(forall|j: int| 0 <= j < s.len() ==> #[trigger] r[j].0 == s[j].0);
    } else {
        if i < s.len() {
            lemma_key_order(k, s[i].0, s[i].0);
            lemma_key_order(s[i].0, k, k);
        }
        assert forall|x: int, y: int| 0 <= x < y < r.len() implies key_less(
            #[trigger] r[x].0,
            #[trigger] r[y].0,
        ) by {
            if x < i && y == i {
            } else if x == i && y > i {
                lemma_key_order(k, s[i].0, s[y - 1].0);
            } else if x < i && y > i {
            } else if y < i {
            } else {
            }
        }
    }
}

/// The message for a value that cannot be a key.
pub open spec fn unusable_key_message(k: Value) -> Seq<char> {
    "unusable as hash key: "@ + kind_text(k)
}

fn chars_less_exec(a: &str, b: &str) -> (r: bool)
    ensures
        r == chars_less(a@, b@),
{
    let n = a.unicode_len();
    let m = b.unicode_len();
    let mut i: usize = 0;
    assert(a@.skip(0) =~= a@);
    assert(b@.skip(0) =~= b@);
    while i < n && i < m
        invariant
            n == a@.len(),
            m == b@.len(),
            i <= n,
            i <= m,
            chars_less(a@, b@) == chars_less(a@.skip(i as int), b@.skip(i as int)),
        decreases n - i,
    {
        let x = a.get_char(i);
        let y = b.get_char(i);
        assert(a@.skip(i as int)[0] == x);
        assert(b@.skip(i as int)[0] == y);
        if x != y {
            return x < y;
        }
        assert(a@.skip(i as int).drop_first() =~= a@.skip(i as int + 1));
        assert(b@.skip(i as int).drop_first() =~= b@.skip(i as int + 1));
        i = i + 1;
    }
    assert(a@.skip(i as int).len() == n - i);
    assert(b@.skip(i as int).len() == m - i);
    i < m && i == n
}

fn scalar_is_less(a: &Object, b: &Object) -> (r: bool)
    ensures
        r == scalar_less(a.model(), b.model()),
{
    let ra = rank(a);
    let rb = rank(b);
    if ra != rb {
        return ra < rb;
    }
    match (a, b) {
        (Object::Integer(x), Object::Integer(y)) => *x < *y,
        (Object::Boolean(x), Object::Boolean(y)) => !*x && *y,
        (Object::String(x), Object::String(y)) => chars_less_exec(x.as_str(), y.as_str()),
        _ => false,
    }
}

/// Whether `a` comes before `b` in the order of keys.
pub fn key_is_less(a: &Object, b: &Object) -> (r: bool)
    requires
        hashable(a.model()),
        hashable(b.model()),
    ensures
        r == key_less(a.model(), b.model()),
{
    match (a, b) {
        (Object::Array(x), Object::Array(y)) => {
            proof {
                lemma_array_model(*x);
                lemma_array_model(*y);
            }
            let ghost xs = objects_model(x@);
            let ghost ys = objects_model(y@);
            assert(a.model()->Array_0 == xs && b.model()->Array_0 == ys);
            assert forall|j: int| 0 <= j < xs.len() implies scalar(#[trigger] xs[j]) by {
                assert(scalar(a.model()->Array_0[j]));
            }
            assert forall|j: int| 0 <= j < ys.len() implies scalar(#[trigger] ys[j]) by {
                assert(scalar(b.model()->Array_0[j]));
            }
            let mut i: usize = 0;
            assert(xs.skip(0) =~= xs);
            assert(ys.skip(0) =~= ys);
            while i < x.len() && i < y.len()
                invariant
                    xs == objects_model(x@),
                    ys == objects_model(y@),
                    a.model() == Value::Array(xs),
                    b.model() == Value::Array(ys),
                    all_scalar(xs),
                    all_scalar(ys),
                    i <= x@.len(),
                    i <= y@.len(),
                    seq_less(xs, ys) == seq_less(xs.skip(i as int), ys.skip(i as int)),
                decreases x@.len() - i,
            {
                assert(xs.skip(i as int)[0] == xs[i as int]);
                assert(ys.skip(i as int)[0] == ys[i as int]);
                assert(xs.skip(i as int).len() > 0 && ys.skip(i as int).len() > 0);
                assert(scalar(xs[i as int]));
                if !same_scalar(&x[i], &y[i]) {
                    assert(xs[i as int] != ys[i as int]);
                    return scalar_is_less(&x[i], &y[i]);
                }
                assert(xs.skip(i as int).drop_first() =~= xs.skip(i as int + 1));
                assert(ys.skip(i as int).drop_first() =~= ys.skip(i as int + 1));
                i = i + 1;
            }
            assert(xs.skip(i as int).len() == x@.len() - i);
            assert(ys.skip(i as int).len() == y@.len() - i);
            i == x.len() && i < y.len()
        },
        _ => scalar_is_less(a, b),
    }
}

fn rank(a: &Object) -> (r: u8)
    ensures
        r as int == key_rank(a.model()),
{
    match a {
        Object::Integer(_) => 0,
        Object::Boolean(_) => 1,
        Object::String(_) => 2,
        Object::Array(_) => 3,
        Object::Null => 4,
        _ => 5,
    }
}

fn is_scalar(a: &Object) -> (r: bool)
    ensures
        r == scalar(a.model()),
{
    match a {
        Object::Integer(_) | Object::Boolean(_) | Object::String(_) | Object::Null => true,
        _ => false,
    }
}

/// Whether `a` can be a hash key.
pub fn is_hashable(a: &Object) -> (r: bool)
    ensures
        r == hashable(a.model()),
{
    match a {
        Object::Array(x) => {
            proof {
                lemma_array_model(*x);
            }
            let ghost xs = objects_model(x@);
            let mut i: usize = 0;
            while i < x.len()
                invariant
                    xs == objects_model(x@),
                    a.model() == Value::Array(xs),
                    i <= x@.len(),
                    forall|j: int| 0 <= j < i ==> scalar(#[trigger] xs[j]),
                decreases x@.len() - i,
            {
                if !is_scalar(&x[i]) {
                    assert(a.model()->Array_0 == xs);
                    assert(!scalar(a.model()->Array_0[i as int]));
                    return false;
                }
                i = i + 1;
            }
            true
        },
        _ => is_scalar(a),
    }
}

fn same_scalar(a: &Object, b: &Object) -> (r: bool)
    ensures
        r == (scalar(a.model()) && a.model() == b.model()),
{
    match (a, b) {
        (Object::Integer(x), Object::Integer(y)) => *x == *y,
        (Object::Boolean(x), Object::Boolean(y)) => *x == *y,
        (Object::String(x), Object::String(y)) => *x == *y,
        (Object::Null, Object::Null) => true,
        _ => {
            assert(!scalar(a.model()) || a.model() != b.model());
            false
        },
    }
}

/// Whether `a` is a key and `b` the same key.
pub fn same_key(a: &Object, b: &Object) -> (r: bool)
    ensures
        r == (hashable(a.model()) && a.model() == b.model()),
{
    if !is_hashable(a) {
        return false;
    }
    match (a, b) {
        (Object::Array(x), Object::Array(y)) => {
            proof {
                lemma_array_model(*x);
                lemma_array_model(*y);
            }
            let ghost xs = objects_model(x@);
            let ghost ys = objects_model(y@);
            if x.len() != y.len() {
                assert(xs.len() != ys.len());
                return false;
            }
            assert(a.model()->Array_0 == xs);
            assert forall|j: int| 0 <= j < xs.len() implies scalar(#[trigger] xs[j]) by {
                assert(scalar(a.model()->Array_0[j]));
            }
            let mut i: usize = 0;
            while i < x.len()
                invariant
                    xs == objects_model(x@),
                    ys == objects_model(y@),
                    a.model() == Value::Array(xs),
                    b.model() == Value::Array(ys),
                    hashable(a.model()),
                    all_scalar(xs),
                    x@.len() == y@.len(),
                    i <= x@.len(),
                    forall|j: int| 0 <= j < i ==> #[trigger] xs[j] == ys[j],
                decreases x@.len() - i,
            {
                if !same_scalar(&x[i], &y[i]) {
                    assert(scalar(xs[i as int]));
                    assert(xs[i as int] != ys[i as int]);
                    assert(xs != ys);
                    return false;
                }
                i = i + 1;
            }
            assert(xs =~= ys);
            true
        },
        (Object::Array(_), _) => false,
        _ => same_scalar(a, b),
    }
}

/// The value stored under `key` in a list of hash entries.
pub fn hash_lookup<'a>(pairs: &'a Vec<(Object, Object)>, key: &Object) -> (r: Option<&'a Object>)
    ensures
        match r {
            Some(o) => hash_get(pairs_model(pairs@), key.model()) == Some(o.model()),
            None => hash_get(pairs_model(pairs@), key.model()) is None,
        },
{
    let ghost s = pairs_model(pairs@);
    let mut i: usize = 0;
    while i < pairs.len()
        invariant
            s == pairs_model(pairs@),
            i <= pairs@.len(),
            hash_find(s, key.model(), 0) == hash_find(s, key.model(), i as int),
        decreases pairs@.len() - i,
    {
        if same_key(&pairs[i].0, key) {
            return Some(&pairs[i].1);
        }
        i = i + 1;
    }
    None
}

/// Binds `key` to `value` among the entries, keeping them ordered by key.
pub fn hash_insert(pairs: &mut Vec<(Object, Object)>, key: Object, value: Object)
    requires
        hashable(key.model()),
        keys_sorted(pairs_model(old(pairs)@)),
    ensures
        pairs_model(final(pairs)@) == hash_put(pairs_model(old(pairs)@), key.model(), value.model()),
{
    let ghost s = pairs_model(pairs@);
    let ghost k = key.model();
    let ghost v = value.model();
    let mut i: usize = 0;
    assert forall|j: int| 0 <= j < pairs@.len() implies hashable(#[trigger] pairs@[j].0.model()) by {
        assert(hashable(s[j].0));
    }
    while i < pairs.len() && key_is_less(&pairs[i].0, &key)
        invariant
            forall|j: int| 0 <= j < pairs@.len() ==> hashable(#[trigger] pairs@[j].0.model()),
            hashable(key.model()),
            s == pairs_model(pairs@),
            *pairs == *old(pairs),
            k == key.model(),
            i <= pairs@.len(),
            put_index(s, k, 0) == put_index(s, k, i as int),
        decreases pairs@.len() - i,
    {
        i = i + 1;
    }
    assert(put_index(s, k, 0) == i);
    if i < pairs.len() && same_key(&pairs[i].0, &key) {
        let ghost before = pairs@;
        pairs[i] = (key, value);
        assert(pairs_model(pairs@) =~= s.update(i as int, (k, v))) by {
            assert forall|j: int| 0 <= j < s.len() implies #[trigger] pairs_model(pairs@)[j]
                == s.update(i as int, (k, v))[j] by {
                if j != i {
                    assert(pairs@[j] == before[j]);
                }
            }
        }
    } else {
        let ghost before = pairs@;
        pairs.insert(i, (key, value));
        assert(pairs_model(pairs@) =~= s.insert(i as int, (k, v))) by {
            assert forall|j: int| 0 <= j < s.len() + 1 implies #[trigger] pairs_model(pairs@)[j]
                == s.insert(i as int, (k, v))[j] by {
                if j < i {
                    assert(pairs@[j] == before[j]);
                } else if j > i {
                    assert(pairs@[j] == before[j - 1]);
                }
            }
        }
    }
}

/// The hash value built by binding each key in turn, later entries winning;
/// an error when a key cannot be a hash key.
pub open spec fn build_hash(s: Seq<(Value, Value)>) -> Value
    decreases s.len(),
{
    if s.len() == 0 {
        Value::Hash(Seq::empty())
    } else {
        match build_hash(s.drop_last()) {
            Value::Hash(h) => if hashable(s.last().0) {
                Value::Hash(hash_put(h, s.last().0, s.last().1))
            } else {
                Value::Error(unusable_key_message(s.last().0))
            },
            other => other,
        }
    }
}

pub proof fn lemma_build_hash_stays(s: Seq<(Value, Value)>, i: int)
    requires
        0 <= i <= s.len(),
        !(build_hash(s.subrange(0, i)) is Hash),
    ensures
        build_hash(s) == build_hash(s.subrange(0, i)),
    decreases s.len() - i,
{
    if i < s.len() {
        assert(s.subrange(0, i + 1).drop_last() =~= s.subrange(0, i));
        lemma_build_hash_stays(s, i + 1);
    } else {
        assert(s.subrange(0, i) =~= s);
    }
}

/// A hash built by `build_hash` has its keys sorted.
pub proof fn lemma_build_hash_sorted(s: Seq<(Value, Value)>)
    ensures
        build_hash(s) is Hash ==> keys_sorted(build_hash(s)->Hash_0),
    decreases s.len(),
{
    if s.len() > 0 {
        lemma_build_hash_sorted(s.drop_last());
        if let Value::Hash(h) = build_hash(s.drop_last()) {
            if hashable(s.last().0) {
                lemma_hash_put_sorted(h, s.last().0, s.last().1);
            }
        }
    }
}

impl Object {
    /// A hash built from key/value pairs in order, later pairs winning on
    /// equal keys; an error value when a key cannot be a hash key.
    pub fn from_pairs(entries: Vec<(Object, Object)>) -> (r: Object)
        ensures
            r.model() == build_hash(pairs_model(entries@)),
            r.model() is Hash ==> keys_sorted(r.model()->Hash_0),
    {
        proof {
            lemma_build_hash_sorted(pairs_model(entries@));
        }
        let ghost all = pairs_model(entries@);
        let mut pairs: Vec<(Object, Object)> = Vec::new();
        proof {
            assert(all.subrange(0, 0) =~= Seq::<(Value, Value)>::empty());
            assert(pairs_model(pairs@) =~= Seq::<(Value, Value)>::empty());
        }
        let n = entries.len();
        let mut i: usize = 0;
        while i < n
            invariant
                n == entries@.len(),
                all == pairs_model(entries@),
                i <= n,
                build_hash(all.subrange(0, i as int)) == Value::Hash(pairs_model(pairs@)),
                keys_sorted(pairs_model(pairs@)),
            decreases n - i,
        {
            let key = entries[i].0.duplicate();
            let value = entries[i].1.duplicate();
            assert(all.subrange(0, i as int + 1).drop_last() =~= all.subrange(0, i as int));
            if !is_hashable(&key) {
                let mut message = String::from_str("unusable as hash key: ");
                message.append(key.kind());
                proof {
                    assert(all[i as int].0 == key.model());
                    assert(all.subrange(0, i as int + 1).last() == all[i as int]);
                    assert(message@ == unusable_key_message(key.model()));
                    assert(build_hash(all.subrange(0, i as int + 1)) == Value::Error(
                        unusable_key_message(key.model()),
                    ));
                    lemma_build_hash_stays(all, i as int + 1);
                }
                return Object::Error(message);
            }
            proof {
                lemma_hash_put_sorted(pairs_model(pairs@), key.model(), value.model());
            }
            hash_insert(&mut pairs, key, value);
            i = i + 1;
        }
        assert(all.subrange(0, n as int) =~= all);
        let r = HashEntries::from_sorted(pairs);
        proof {
            lemma_hash_model(r);
        }
        Object::Hash(r)
    }
}

} // verus!
