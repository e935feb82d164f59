//! The open metadata value: a JSON-shaped tree of nulls, booleans,
//! integers, strings, arrays and objects. Objects are association lists
//! that keep insertion order; lookups take the first binding of a key.

use vstd::prelude::*;

verus! {

/// Metadata carried by a document: frontmatter fields and plugin data.
pub enum Value {
    Null,
    Bool(bool),
    Int(i64),
    Str(String),
    Arr(Vec<Value>),
    Obj(Vec<(String, Value)>),
}

/// The mathematical shape of a metadata value.
#[verifier::ext_equal]
pub enum JsonVal {
    Null,
    Bool(bool),
    Int(int),
    Str(Seq<char>),
    Arr(Seq<JsonVal>),
    Obj(Seq<(Seq<char>, JsonVal)>),
}

/// The shapes of a sequence of values.
pub open spec fn list_view(xs: Seq<Value>) -> Seq<JsonVal>
    decreases xs,
{
    Seq::new(
        xs.len(),
        |i: int|
            if 0 <= i < xs.len() {
                xs[i]@
            } else {
                JsonVal::Null
            },
    )
}

/// The shapes of a sequence of key/value bindings.
pub open spec fn pairs_view(ps: Seq<(String, Value)>) -> Seq<(Seq<char>, JsonVal)>
    decreases ps,
{
    Seq::new(
        ps.len(),
        |i: int|
            if 0 <= i < ps.len() {
                (ps[i].0@, ps[i].1@)
            } else {
                (Seq::empty(), JsonVal::Null)
            },
    )
}

impl View for Value {
    type V = JsonVal;

    open spec fn view(&self) -> JsonVal
        decreases self,
    {
        match self {
            Value::Null => JsonVal::Null,
            Value::Bool(b) => JsonVal::Bool(*b),
            Value::Int(n) => JsonVal::Int(*n as int),
            Value::Str(s) => JsonVal::Str(s@),
            Value::Arr(xs) => JsonVal::Arr(list_view(xs@)),
            Value::Obj(ps) => JsonVal::Obj(pairs_view(ps@)),
        }
    }
}

/// The first binding of a key in an object's pairs.
pub open spec fn lookup_pairs(ps: Seq<(Seq<char>, JsonVal)>, k: Seq<char>) -> Option<JsonVal>
    decreases ps.len(),
{
    if ps.len() == 0 {
        None
    } else if ps[0].0 == k {
        Some(ps[0].1)
    } else {
        lookup_pairs(ps.skip(1), k)
    }
}

/// The value bound to a key: the first binding when the value is an
/// object, nothing otherwise.
pub open spec fn jv_get(v: JsonVal, k: Seq<char>) -> Option<JsonVal> {
    match v {
        JsonVal::Obj(ps) => lookup_pairs(ps, k),
        _ => None,
    }
}

/// When no binding among the first `i` pairs carries the key, the lookup
/// is decided by the rest.
proof fn lemma_lookup_skip(ps: Seq<(Seq<char>, JsonVal)>, k: Seq<char>, i: int)
    requires
        0 <= i <= ps.len(),
        forall|j: int| 0 <= j < i ==> ps[j].0 != k,
    ensures
        lookup_pairs(ps, k) == lookup_pairs(ps.skip(i), k),
    decreases i,
{
    if i > 0 {
        lemma_lookup_skip(ps.skip(1), k, i - 1);
        assert(ps.skip(1).skip(i - 1) =~= ps.skip(i));
    } else {
        assert(ps.skip(0) =~= ps);
    }
}

impl Value {
    /// Whether this value is an object.
    pub fn is_object(&self) -> (r: bool)
        ensures
            r == (self@ is Obj),
    {
        match self {
            Value::Obj(_) => true,
            _ => false,
        }
    }

    /// The value bound to `key`, when this value is an object that binds it.
    #[verifier::loop_isolation(false)]
    pub fn get<'a>(&'a self, key: &str) -> (r: Option<&'a Value>)
        ensures
            match r {
                Some(v) => jv_get(self@, key@) == Some(v@),
                None => jv_get(self@, key@) is None,
            },
    {
        match self {
            Value::Obj(ps) => {
                let n = ps.len();
                let mut i: usize = 0;
                while i < n
                    invariant
                        n == ps@.len(),
                        0 <= i <= n,
                        forall|j: int| 0 <= j < i ==> pairs_view(ps@)[j].0 != key@,
                    decreases n - i,
                {
                    let p = &ps[i];
                    if crate::strutil::str_eq(p.0.as_str(), key) {
                        proof {
                            lemma_lookup_skip(pairs_view(ps@), key@, i as int);
                            assert(pairs_view(ps@).skip(i as int)[0] == pairs_view(ps@)[i as int]);
                            assert(pairs_view(ps@)[i as int] == (ps@[i as int].0@, ps@[
                                i as int
                            ].1@));
                            let rest = pairs_view(ps@).skip(i as int);
                            assert(rest.len() > 0 && rest[0].0 == key@);
                            assert(lookup_pairs(rest, key@) == Some(rest[0].1));
                            assert(jv_get(self@, key@) == lookup_pairs(pairs_view(ps@), key@));
                        }
                        return Some(&p.1);
                    }
                    i = i + 1;
                }
                proof {
                    lemma_lookup_skip(pairs_view(ps@), key@, n as int);
                }
                None
            },
            _ => None,
        }
    }

    /// The borrowed string inside, when this value is a string.
    pub fn as_str<'a>(&'a self) -> (r: Option<&'a String>)
        ensures
            match r {
                Some(s) => self@ == JsonVal::Str(s@),
                None => !(self@ is Str),
            },
    {
        match self {
            Value::Str(s) => Some(s),
            _ => None,
        }
    }
}

/// An object's pairs with every binding of a key dropped.
pub open spec fn remove_key(ps: Seq<(Seq<char>, JsonVal)>, k: Seq<char>) -> Seq<
    (Seq<char>, JsonVal),
>
    decreases ps.len(),
{
    if ps.len() == 0 {
        Seq::empty()
    } else if ps.last().0 == k {
        remove_key(ps.drop_last(), k)
    } else {
        remove_key(ps.drop_last(), k).push(ps.last())
    }
}

/// An object's pairs with the first binding of a key replaced, or a new
/// binding appended when the key was absent.
pub open spec fn set_key(ps: Seq<(Seq<char>, JsonVal)>, k: Seq<char>, v: JsonVal) -> Seq<
    (Seq<char>, JsonVal),
>
    decreases ps.len(),
{
    if ps.len() == 0 {
        seq![(k, v)]
    } else if ps[0].0 == k {
        seq![(k, v)] + ps.skip(1)
    } else {
        seq![ps[0]] + set_key(ps.skip(1), k, v)
    }
}

proof fn lemma_set_key_update(ps: Seq<(Seq<char>, JsonVal)>, k: Seq<char>, v: JsonVal, j: int)
    requires
        0 <= j < ps.len(),
        ps[j].0 == k,
        forall|l: int| 0 <= l < j ==> ps[l].0 != k,
    ensures
        set_key(ps, k, v) == ps.update(j, (k, v)),
    decreases j,
{
    if j == 0 {
        assert(seq![(k, v)] + ps.skip(1) =~= ps.update(0, (k, v)));
    } else {
        lemma_set_key_update(ps.skip(1), k, v, j - 1);
        assert(seq![ps[0]] + ps.skip(1).update(j - 1, (k, v)) =~= ps.update(j, (k, v)));
    }
}

proof fn lemma_set_key_push(ps: Seq<(Seq<char>, JsonVal)>, k: Seq<char>, v: JsonVal)
    requires
        forall|l: int| 0 <= l < ps.len() ==> ps[l].0 != k,
    ensures
        set_key(ps, k, v) == ps.push((k, v)),
    decreases ps.len(),
{
    if ps.len() == 0 {
        assert(seq![(k, v)] =~= ps.push((k, v)));
    } else {
        lemma_set_key_push(ps.skip(1), k, v);
        assert(seq![ps[0]] + ps.skip(1).push((k, v)) =~= ps.push((k, v)));
    }
}

/// A missing binding read as null.
pub open spec fn jv_or_null(o: Option<JsonVal>) -> JsonVal {
    match o {
        Some(v) => v,
        None => JsonVal::Null,
    }
}

/// A merge patch in the style of RFC 7396: objects merge key by key, a
/// null binding deletes the key, and anything else replaces the target.
pub open spec fn merge_spec(a: JsonVal, b: JsonVal) -> JsonVal
    decreases b, 0int,
{
    if a is Obj && b is Obj {
        JsonVal::Obj(merge_from(a->Obj_0, b->Obj_0, 0))
    } else {
        b
    }
}

/// The patch's pairs from index `i` on, folded into the target's pairs.
pub open spec fn merge_from(
    a: Seq<(Seq<char>, JsonVal)>,
    bs: Seq<(Seq<char>, JsonVal)>,
    i: int,
) -> Seq<(Seq<char>, JsonVal)>
    decreases bs, bs.len() - i,
    via merge_from_dec
{
    if i < 0 || i >= bs.len() {
        a
    } else {
        let k = bs[i].0;
        let v = bs[i].1;
        let a2 = if v is Null {
            remove_key(a, k)
        } else {
            set_key(a, k, merge_spec(jv_or_null(lookup_pairs(a, k)), v))
        };
        merge_from(a2, bs, i + 1)
    }
}

#[via_fn]
proof fn merge_from_dec(a: Seq<(Seq<char>, JsonVal)>, bs: Seq<(Seq<char>, JsonVal)>, i: int) {
    if 0 <= i < bs.len() {
        assert(decreases_to!(bs => bs[i]));
        assert(decreases_to!(bs[i] => bs[i].1));
    }
}

/// Clone a vector of key/value bindings.
fn clone_pairs(ps: &Vec<(String, Value)>) -> (r: Vec<(String, Value)>)
    ensures
        pairs_view(r@) == pairs_view(ps@),
{
    let mut out: Vec<(String, Value)> = Vec::new();
    let mut i: usize = 0;
    while i < ps.len()
        invariant
            0 <= i <= ps@.len(),
            out@.len() == i,
            forall|j: int| 0 <= j < i ==> out@[j].0@ == ps@[j].0@ && out@[j].1@ == ps@[j].1@,
        decreases ps@.len() - i,
    {
        let p = &ps[i];
        let k = p.0.clone();
        let v = p.1.clone();
        out.push((k, v));
        i = i + 1;
    }
    proof {
        assert(pairs_view(out@) =~= pairs_view(ps@));
    }
    out
}

/// Drop every binding of `key` from the pairs, keeping the others in order.
fn drop_key(ps: &Vec<(String, Value)>, key: &str) -> (r: Vec<(String, Value)>)
    ensures
        pairs_view(r@) == remove_key(pairs_view(ps@), key@),
{
    let mut out: Vec<(String, Value)> = Vec::new();
    let mut i: usize = 0;
    while i < ps.len()
        invariant
            0 <= i <= ps@.len(),
            pairs_view(out@) == remove_key(pairs_view(ps@.take(i as int)), key@),
        decreases ps@.len() - i,
    {
        let p = &ps[i];
        let keep = !crate::strutil::str_eq(p.0.as_str(), key);
        let ghost prev = pairs_view(out@);
        if keep {
            let k = p.0.clone();
            let v = p.1.clone();
            out.push((k, v));
        }
        i = i + 1;
        proof {
            let cur = pairs_view(ps@.take(i as int));
            assert(cur.drop_last() =~= pairs_view(ps@.take(i - 1)));
            assert(cur.last() == (ps@[i - 1].0@, ps@[i - 1].1@));
            if keep {
                assert(pairs_view(out@) =~= prev.push((ps@[i - 1].0@, ps@[i - 1].1@)));
            }
            assert(remove_key(cur, key@) == if cur.last().0 == key@ {
                remove_key(cur.drop_last(), key@)
            } else {
                remove_key(cur.drop_last(), key@).push(cur.last())
            });
        }
    }
    proof {
        assert(ps@.take(ps@.len() as int) =~= ps@);
    }
    out
}

/// Merge a patch into a value, RFC 7396 style.
#[verifier::loop_isolation(false)]
pub fn merged(a: &Value, b: &Value) -> (r: Value)
    ensures
        r@ == merge_spec(a@, b@),
    decreases b,
{
    match b {
        Value::Obj(bps) => {
            match a {
                Value::Obj(aps) => {
                    let ghost av = pairs_view(aps@);
                    let ghost bv = pairs_view(bps@);
                    let mut cur: Vec<(String, Value)> = clone_pairs(aps);
                    let n = bps.len();
                    let mut i: usize = 0;
                    while i < n
                        invariant
                            n == bps@.len(),
                            0 <= i <= n,
                            bv == pairs_view(bps@),
                            merge_from(av, bv, 0) == merge_from(pairs_view(cur@), bv, i as int),
                        decreases n - i,
                    {
                        let p = &bps[i];
                        proof {
                            assert(*b == Value::Obj(*bps));
                            assert(decreases_to!(*b => *bps));
                            assert(decreases_to!(*bps => bps@));
                            assert(decreases_to!(bps@ => bps@[i as int]));
                            assert(decreases_to!(bps@[i as int] => bps@[i as int].1));
                            assert(p.1 == bps@[i as int].1);
                            assert(bv[i as int] == (bps@[i as int].0@, bps@[i as int].1@));
                        }
                        let is_null = match &p.1 {
                            Value::Null => true,
                            _ => false,
                        };
                        let ghost before = pairs_view(cur@);
                        if is_null {
                            cur = drop_key(&cur, p.0.as_str());
                        } else {
                            // Find the first binding of the key, if any.
                            let mut j: usize = 0;
                            let m = cur.len();
                            let mut found: bool = false;
                            while j < m && !found
                                invariant
                                    m == cur@.len(),
                                    0 <= j <= m,
                                    !found ==> forall|l: int|
                                        0 <= l < j ==> pairs_view(cur@)[l].0 != p.0@,
                                    found ==> j < m && pairs_view(cur@)[j as int].0 == p.0@
                                        && forall|l: int|
                                        0 <= l < j ==> pairs_view(cur@)[l].0 != p.0@,
                                decreases m - j + (if found { 0int } else { 1int }),
                            {
                                if crate::strutil::str_eq(cur[j].0.as_str(), p.0.as_str()) {
                                    found = true;
                                } else {
                                    j = j + 1;
                                }
                            }
                            if found {
                                let old_entry = &cur[j].1;
                                let newv = merged(old_entry, &p.1);
                                let k2 = p.0.clone();
                                proof {
                                    lemma_lookup_skip(pairs_view(cur@), p.0@, j as int);
                                    lemma_set_key_update(
                                        pairs_view(cur@),
                                        p.0@,
                                        newv@,
                                        j as int,
                                    );
                                }
                                cur.set(j, (k2, newv));
                                proof {
                                    assert(pairs_view(cur@) =~= set_key(before, p.0@, newv@));
                                }
                            } else {
                                let k2 = p.0.clone();
                                let newv = merged(&Value::Null, &p.1);
                                proof {
                                    lemma_lookup_skip(pairs_view(cur@), p.0@, m as int);
                                    lemma_set_key_push(pairs_view(cur@), p.0@, newv@);
                                }
                                cur.push((k2, newv));
                                proof {
                                    assert(pairs_view(cur@) =~= set_key(before, p.0@, newv@));
                                }
                            }
                        }
                        i = i + 1;
                    }
                    let r = Value::Obj(cur);
                    proof {
                        assert(merge_from(av, bv, 0) == pairs_view(r->Obj_0@));
                        assert(r@ == merge_spec(a@, b@));
                    }
                    r
                },
                _ => b.clone(),
            }
        },
        _ => b.clone(),
    }
}

/// The value reached by following a path of keys, one lookup per segment.
pub open spec fn get_path(v: JsonVal, segs: Seq<Seq<char>>) -> Option<JsonVal>
    decreases segs.len(),
{
    if segs.len() == 0 {
        Some(v)
    } else {
        match jv_get(v, segs[0]) {
            Some(w) => get_path(w, segs.skip(1)),
            None => None,
        }
    }
}

/// The value reached by a dot-separated path of keys.
pub open spec fn get_deep_spec(v: JsonVal, prop: Seq<char>) -> Option<JsonVal> {
    get_path(v, crate::strutil::split_spec(prop, '.'))
}

/// Get a deep property from a value using dot notation.
pub fn get_deep(value: &Value, prop: &str) -> (r: Option<Value>)
    ensures
        match r {
            Some(v) => get_deep_spec(value@, prop@) == Some(v@),
            None => get_deep_spec(value@, prop@) is None,
        },
{
    let segs = crate::strutil::split_char(prop, '.');
    let ghost sv = segs.deep_view();
    let mut cur: &Value = value;
    let n = segs.len();
    let mut i: usize = 0;
    proof {
        assert(sv.skip(0) =~= sv);
    }
    while i < n
        invariant
            n == segs@.len(),
            sv == segs.deep_view(),
            sv == crate::strutil::split_spec(prop@, '.'),
            sv.len() == n,
            0 <= i <= n,
            get_path(value@, sv) == get_path(cur@, sv.skip(i as int)),
        decreases n - i,
    {
        proof {
            assert(sv.skip(i as int)[0] == sv[i as int]);
            assert(sv[i as int] == segs@[i as int]@);
            assert(sv.skip(i as int).skip(1) =~= sv.skip(i as int + 1));
        }
        let seg = &segs[i];
        match cur.get(seg.as_str()) {
            Some(v) => {
                cur = v;
            },
            None => {
                return None;
            },
        }
        i = i + 1;
    }
    proof {
        assert(sv.skip(n as int).len() == 0);
    }
    Some(cur.clone())
}

/// Merge a patch into a value in place.
pub fn merge(a: &mut Value, b: Value)
    ensures
        final(a)@ == merge_spec(old(a)@, b@),
{
    let r = merged(&*a, &b);
    *a = r;
}

impl Clone for Value {
    /// A clone carries the same metadata shape.
    #[verifier::loop_isolation(false)]
    fn clone(&self) -> (res: Self)
        ensures
            res@ == self@,
        decreases self,
    {
        match self {
            Value::Null => Value::Null,
            Value::Bool(b) => Value::Bool(*b),
            Value::Int(n) => Value::Int(*n),
            Value::Str(s) => Value::Str(s.clone()),
            Value::Arr(xs) => {
                let mut out: Vec<Value> = Vec::new();
                let mut i: usize = 0;
                while i < xs.len()
                    invariant
                        0 <= i <= xs@.len(),
                        out@.len() == i,
                        forall|j: int| 0 <= j < i ==> out@[j]@ == xs@[j]@,
                    decreases xs@.len() - i,
                {
                    let x = &xs[i];
                    proof {
                        assert(*self == Value::Arr(*xs));
                        assert(decreases_to!(*self => *xs));
                        assert(decreases_to!(*xs => xs@));
                        assert(decreases_to!(xs@ => xs@[i as int]));
                        assert(decreases_to!(*self => xs@[i as int]));
                    }
                    out.push(x.clone());
                    i = i + 1;
                }
                let r = Value::Arr(out);
                proof {
                    assert(r@ is Arr);
                    assert(self@ is Arr);
                    assert forall|j: int| 0 <= j < xs@.len() implies r@->Arr_0[j] == self@->Arr_0[j]
                    by {}
                    assert(r@->Arr_0 =~= self@->Arr_0);
                    assert(r@ =~~= self@);
                }
                r
            },
            Value::Obj(ps) => {
                let mut out: Vec<(String, Value)> = Vec::new();
                let mut i: usize = 0;
                while i < ps.len()
                    invariant
                        0 <= i <= ps@.len(),
                        out@.len() == i,
                        forall|j: int|
                            0 <= j < i ==> out@[j].0@ == ps@[j].0@ && out@[j].1@ == ps@[j].1@,
                    decreases ps@.len() - i,
                {
                    let p = &ps[i];
                    proof {
                        assert(decreases_to!(ps@[i as int] => ps@[i as int].1));
                        assert(p.1 == ps@[i as int].1);
                    }
                    let k = p.0.clone();
                    let v = p.1.clone();
                    out.push((k, v));
                    i = i + 1;
                }
                let r = Value::Obj(out);
                proof {
                    assert(r@ is Obj);
                    assert(self@ is Obj);
                    assert forall|j: int| 0 <= j < ps@.len() implies r@->Obj_0[j] == self@->Obj_0[j]
                    by {}
                    assert(r@->Obj_0 =~= self@->Obj_0);
                    assert(r@ =~~= self@);
                }
                r
            },
        }
    }
}

} // verus!
