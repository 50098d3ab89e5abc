//! A JSON value model. Numbers keep their literal text, so nothing is
//! rounded and no floating point enters the library; objects keep their
//! entries in order. The embedding client reads provider responses through
//! this model, and page assembly merges option objects through it.

use vstd::prelude::*;
use vstd::string::StringExecFns;

use crate::numbers::parse_u64;
use crate::numbers::parse_u64_spec;
use crate::text::chars_of;

verus! {

/// A JSON value.
pub enum Json {
    Null,
    Bool(bool),
    Num(String),
    Str(String),
    Arr(Vec<Json>),
    Obj(Vec<(String, Json)>),
}

/// The value under the first entry of `entries` named `k`.
pub open spec fn obj_get(entries: Seq<(String, Json)>, k: Seq<char>) -> Option<Json>
    decreases entries.len(),
{
    if entries.len() == 0 {
        Option::None
    } else if entries[0].0@ == k {
        Option::Some(entries[0].1)
    } else {
        obj_get(entries.drop_first(), k)
    }
}

/// The value under key `k`: defined for objects that hold the key.
pub open spec fn json_get(j: Json, k: Seq<char>) -> Option<Json> {
    match j {
        Json::Obj(es) => obj_get(es@, k),
        _ => Option::None,
    }
}

/// The numeric value of a JSON number whose text is a plain digit run.
pub open spec fn json_u64(j: Json) -> Option<int> {
    match j {
        Json::Num(s) => parse_u64_spec(s@),
        _ => Option::None,
    }
}

/// The elements of a JSON array.
pub open spec fn json_arr(j: Json) -> Option<Seq<Json>> {
    match j {
        Json::Arr(v) => Option::Some(v@),
        _ => Option::None,
    }
}

impl Json {
    /// Borrow the value under `key`, for objects that hold it.
    pub fn get<'a>(&'a self, key: &str) -> (r: Option<&'a Json>)
        ensures
            (match r {
                Option::Some(v) => json_get(*self, key@) == Option::Some(*v),
                Option::None => json_get(*self, key@) is None,
            }),
    {
        match self {
            Json::Obj(es) => {
                let k = String::from_str(key);
                let mut i: usize = 0;
                proof {
                    assert(es@.skip(0) =~= es@);
                }
                while i < es.len()
                    invariant
                        i <= es@.len(),
                        k@ == key@,
                        json_get(*self, key@) == obj_get(es@.skip(i as int), key@),
                        self is Obj,
                        self->Obj_0 == *es,
                    decreases es@.len() - i,
                {
                    proof {
                        assert(es@.skip(i as int)[0] == es@[i as int]);
                        assert(es@.skip(i as int).drop_first() =~= es@.skip(i + 1));
                    }
                    if es[i].0 == k {
                        return Some(&es[i].1);
                    }
                    i = i + 1;
                }
                proof {
                    assert(es@.skip(es@.len() as int) =~= Seq::<(String, Json)>::empty());
                }
                None
            },
            _ => None,
        }
    }

    /// The numeric value of a JSON number that is a plain digit run.
    pub fn as_u64(&self) -> (r: Option<u64>)
        ensures
            (match r {
                Option::Some(v) => json_u64(*self) == Option::Some(v as int),
                Option::None => json_u64(*self) is None,
            }),
    {
        match self {
            Json::Num(s) => {
                let cs = chars_of(s.as_str());
                parse_u64(&cs)
            },
            _ => None,
        }
    }
}

/// Remove and return the value under `key`, for objects that hold it.
pub fn take_key(j: Json, key: &str) -> (r: Option<Json>)
    ensures
        (match r {
            Option::Some(v) => json_get(j, key@) == Option::Some(v),
            Option::None => json_get(j, key@) is None,
        }),
{
    match j {
        Json::Obj(mut es) => {
            let ghost orig = es@;
            let k = String::from_str(key);
            let mut i: usize = 0;
            proof {
                assert(orig.skip(0) =~= orig);
                assert(json_get(j, key@) == obj_get(orig, key@));
            }
            while i < es.len()
                invariant
                    i <= es@.len(),
                    k@ == key@,
                    es@ == orig,
                    json_get(j, key@) == obj_get(orig.skip(i as int), key@),
                decreases es@.len() - i,
            {
                proof {
                    assert(orig.skip(i as int)[0] == orig[i as int]);
                    assert(orig.skip(i as int).drop_first() =~= orig.skip(i + 1));
                }
                let hit = es[i].0 == k;
                if hit {
                    proof {
                        assert(orig[i as int].0@ == key@);
                        assert(obj_get(orig.skip(i as int), key@) == Option::Some(
                            orig[i as int].1,
                        ));
                    }
                    let pair = es.remove(i);
                    proof {
                        assert(pair == orig[i as int]);
                    }
                    return Some(pair.1);
                }
                i = i + 1;
            }
            proof {
                assert(orig.skip(orig.len() as int) =~= Seq::<(String, Json)>::empty());
            }
            None
        },
        _ => None,
    }
}

/// A JSON array holding the given strings, in order.
pub fn string_array(items: &Vec<String>) -> (r: Json)
    ensures
        json_arr(r) is Some,
        json_arr(r)->Some_0.len() == items@.len(),
        forall|i: int|
            0 <= i < items@.len() ==> json_arr(r)->Some_0[i] == Json::Str(#[trigger] items@[i]),
{
    let mut v: Vec<Json> = Vec::new();
    let mut i: usize = 0;
    while i < items.len()
        invariant
            i <= items@.len(),
            v@.len() == i,
            forall|j: int| 0 <= j < i ==> v@[j] == Json::Str(#[trigger] items@[j]),
        decreases items@.len() - i,
    {
        v.push(Json::Str(items[i].clone()));
        i = i + 1;
    }
    Json::Arr(v)
}

/// The mathematical model of a JSON value: entries and elements as
/// sequences of models.
pub ghost enum JsonV {
    Null,
    Bool(bool),
    Num(Seq<char>),
    Str(Seq<char>),
    Arr(Seq<JsonV>),
    Obj(Seq<(Seq<char>, JsonV)>),
}

/// The model of a JSON value.
pub open spec fn jview(j: Json) -> JsonV
    decreases j,
{
    match j {
        Json::Null => JsonV::Null,
        Json::Bool(b) => JsonV::Bool(b),
        Json::Num(s) => JsonV::Num(s@),
        Json::Str(s) => JsonV::Str(s@),
        Json::Arr(v) => JsonV::Arr(jview_seq(v@)),
        Json::Obj(es) => JsonV::Obj(jview_entries(es@)),
    }
}

/// The models of an array's elements.
pub open spec fn jview_seq(v: Seq<Json>) -> Seq<JsonV>
    decreases v,
{
    if v.len() == 0 {
        Seq::empty()
    } else {
        seq![jview(v[0])] + jview_seq(v.drop_first())
    }
}

/// The models of an object's entries.
pub open spec fn jview_entries(es: Seq<(String, Json)>) -> Seq<(Seq<char>, JsonV)>
    decreases es,
{
    if es.len() == 0 {
        Seq::empty()
    } else {
        seq![(es[0].0@, jview(es[0].1))] + jview_entries(es.drop_first())
    }
}

proof fn lemma_jview_seq_index(v: Seq<Json>)
    ensures
        jview_seq(v).len() == v.len(),
        forall|i: int| 0 <= i < v.len() ==> #[trigger] jview_seq(v)[i] == jview(v[i]),
    decreases v.len(),
{
    if v.len() > 0 {
        lemma_jview_seq_index(v.drop_first());
        assert forall|i: int| 0 <= i < v.len() implies #[trigger] jview_seq(v)[i] == jview(
            v[i],
        ) by {
            if i > 0 {
                assert(jview_seq(v)[i] == jview_seq(v.drop_first())[i - 1]);
                assert(v.drop_first()[i - 1] == v[i]);
            }
        }
    }
}

proof fn lemma_jview_entries_index(es: Seq<(String, Json)>)
    ensures
        jview_entries(es).len() == es.len(),
        forall|i: int|
            0 <= i < es.len() ==> #[trigger] jview_entries(es)[i] == (es[i].0@, jview(es[i].1)),
    decreases es.len(),
{
    if es.len() > 0 {
        lemma_jview_entries_index(es.drop_first());
        assert forall|i: int| 0 <= i < es.len() implies #[trigger] jview_entries(es)[i] == (
        es[i].0@, jview(es[i].1)) by {
            if i > 0 {
                assert(jview_entries(es)[i] == jview_entries(es.drop_first())[i - 1]);
                assert(es.drop_first()[i - 1] == es[i]);
            }
        }
    }
}

/// Copy a JSON value.
pub fn clone_json(j: &Json) -> (r: Json)
    ensures
        jview(r) == jview(*j),
    decreases *j,
{
    match j {
        Json::Null => Json::Null,
        Json::Bool(b) => Json::Bool(*b),
        Json::Num(s) => Json::Num(s.clone()),
        Json::Str(s) => Json::Str(s.clone()),
        Json::Arr(v) => {
            let mut out: Vec<Json> = Vec::new();
            let mut i: usize = 0;
            while i < v.len()
                invariant
                    i <= v@.len(),
                    out@.len() == i,
                    *j == Json::Arr(*v),
                    forall|k: int| 0 <= k < i ==> jview(#[trigger] out@[k]) == jview(v@[k]),
                decreases v@.len() - i,
            {
                proof {
                    broadcast use vstd::std_specs::vec::axiom_vec_index_decreases;

                    assert(decreases_to!(*j => j->Arr_0));
                    assert(decreases_to!(*v => v@[i as int]));
                }
                out.push(clone_json(&v[i]));
                i = i + 1;
            }
            let r = Json::Arr(out);
            proof {
                lemma_jview_seq_index(out@);
                lemma_jview_seq_index(v@);
                assert(jview_seq(out@) =~~= jview_seq(v@));
            }
            r
        },
        Json::Obj(es) => {
            let mut out: Vec<(String, Json)> = Vec::new();
            let mut i: usize = 0;
            while i < es.len()
                invariant
                    i <= es@.len(),
                    out@.len() == i,
                    *j == Json::Obj(*es),
                    forall|k: int|
                        0 <= k < i ==> (#[trigger] out@[k]).0@ == es@[k].0@ && jview(out@[k].1)
                            == jview(es@[k].1),
                decreases es@.len() - i,
            {
                proof {
                    broadcast use vstd::std_specs::vec::axiom_vec_index_decreases;

                    assert(decreases_to!(*j => j->Obj_0));
                    assert(decreases_to!(*es => es@[i as int]));
                }
                out.push((es[i].0.clone(), clone_json(&es[i].1)));
                i = i + 1;
            }
            let r = Json::Obj(out);
            proof {
                lemma_jview_entries_index(out@);
                lemma_jview_entries_index(es@);
                assert(jview_entries(out@) =~~= jview_entries(es@));
            }
            r
        },
    }
}

/// Merge one overriding entry into accumulated entries: the first entry with
/// the same key takes the merged value in place; a new key appends.
pub open spec fn merge_entry(
    xs: Seq<(Seq<char>, JsonV)>,
    k: Seq<char>,
    v: JsonV,
) -> Seq<(Seq<char>, JsonV)>
    decreases v, xs.len() + 1,
{
    if xs.len() == 0 {
        seq![(k, v)]
    } else if xs[0].0 == k {
        seq![(k, merge_v(xs[0].1, v))] + xs.drop_first()
    } else {
        seq![xs[0]] + merge_entry(xs.drop_first(), k, v)
    }
}

/// The base object's entries with the overriding object's entries merged in,
/// one at a time, in the overriding object's order.
pub open spec fn merge_entries(
    xs: Seq<(Seq<char>, JsonV)>,
    ys: Seq<(Seq<char>, JsonV)>,
) -> Seq<(Seq<char>, JsonV)>
    decreases ys, 0int,
{
    if ys.len() == 0 {
        xs
    } else {
        merge_entries(merge_entry(xs, ys[0].0, ys[0].1), ys.drop_first())
    }
}

/// One JSON value merged over another: two objects merge per key,
/// recursively; any other overriding value replaces the base outright.
pub open spec fn merge_v(a: JsonV, b: JsonV) -> JsonV
    decreases b, 0int,
{
    if a is Obj && b is Obj {
        JsonV::Obj(merge_entries(a->Obj_0, b->Obj_0))
    } else {
        b
    }
}

proof fn lemma_merge_entries_push(
    xs: Seq<(Seq<char>, JsonV)>,
    ys: Seq<(Seq<char>, JsonV)>,
    e: (Seq<char>, JsonV),
)
    ensures
        merge_entries(xs, ys.push(e)) == merge_entry(merge_entries(xs, ys), e.0, e.1),
    decreases ys.len(),
{
    if ys.len() == 0 {
        assert(ys.push(e)[0] == e);
        assert(ys.push(e).drop_first() =~~= Seq::<(Seq<char>, JsonV)>::empty());
        assert(merge_entries(merge_entry(xs, e.0, e.1), Seq::<(Seq<char>, JsonV)>::empty())
            == merge_entry(xs, e.0, e.1));
    } else {
        lemma_merge_entries_push(merge_entry(xs, ys[0].0, ys[0].1), ys.drop_first(), e);
        assert(ys.push(e)[0] == ys[0]);
        assert(ys.push(e).drop_first() =~~= ys.drop_first().push(e));
    }
}

proof fn lemma_merge_entry_found(es: Seq<(Seq<char>, JsonV)>, k: Seq<char>, v: JsonV, idx: int)
    requires
        0 <= idx < es.len(),
        es[idx].0 == k,
        forall|j: int| 0 <= j < idx ==> (#[trigger] es[j]).0 != k,
    ensures
        merge_entry(es, k, v) == es.update(idx, (k, merge_v(es[idx].1, v))),
    decreases idx,
{
    if idx == 0 {
        assert(merge_entry(es, k, v) =~~= es.update(0, (k, merge_v(es[0].1, v))));
    } else {
        assert(es[0].0 != k);
        assert(forall|j: int|
            0 <= j < idx - 1 ==> (#[trigger] es.drop_first()[j]) == es[j + 1]);
        lemma_merge_entry_found(es.drop_first(), k, v, idx - 1);
        assert(es.drop_first()[idx - 1] == es[idx]);
        assert(merge_entry(es, k, v) =~~= es.update(idx, (k, merge_v(es[idx].1, v))));
    }
}

proof fn lemma_merge_entry_absent(es: Seq<(Seq<char>, JsonV)>, k: Seq<char>, v: JsonV)
    requires
        forall|j: int| 0 <= j < es.len() ==> (#[trigger] es[j]).0 != k,
    ensures
        merge_entry(es, k, v) == es.push((k, v)),
    decreases es.len(),
{
    if es.len() == 0 {
        assert(merge_entry(es, k, v) =~~= es.push((k, v)));
    } else {
        assert(es[0].0 != k);
        assert(forall|j: int|
            0 <= j < es.drop_first().len() ==> (#[trigger] es.drop_first()[j]) == es[j + 1]);
        lemma_merge_entry_absent(es.drop_first(), k, v);
        assert(merge_entry(es, k, v) =~~= es.push((k, v)));
    }
}

fn find_entry(out: &Vec<(String, Json)>, key: &String) -> (r: Option<usize>)
    ensures
        (match r {
            Option::Some(idx) => idx < out@.len() && out@[idx as int].0@ == key@ && forall|j: int|
                0 <= j < idx ==> (#[trigger] out@[j]).0@ != key@,
            Option::None => forall|j: int|
                0 <= j < out@.len() ==> (#[trigger] out@[j]).0@ != key@,
        }),
{
    let mut j: usize = 0;
    while j < out.len()
        invariant
            j <= out@.len(),
            forall|j2: int| 0 <= j2 < j ==> (#[trigger] out@[j2]).0@ != key@,
        decreases out@.len() - j,
    {
        if out[j].0 == *key {
            return Some(j);
        }
        j = j + 1;
    }
    None
}

/// Merge `b` over `a`, as page options override defaults: object members
/// merge per key, recursively, members new in `b` append in `b`'s order, and
/// any other value of `b` replaces `a`'s value outright.
pub fn merge_json(a: &Json, b: &Json) -> (r: Json)
    ensures
        jview(r) == merge_v(jview(*a), jview(*b)),
    decreases *b,
{
    match b {
        Json::Obj(ys) => {
            match a {
                Json::Obj(xs) => {
                    let ghost xv = jview_entries(xs@);
                    let ghost yv = jview_entries(ys@);
                    proof {
                        lemma_jview_entries_index(xs@);
                        lemma_jview_entries_index(ys@);
                    }
                    let mut out: Vec<(String, Json)> = Vec::new();
                    let mut i: usize = 0;
                    while i < xs.len()
                        invariant
                            i <= xs@.len(),
                            out@.len() == i,
                            *a == Json::Obj(*xs),
                            forall|k: int|
                                0 <= k < i ==> (#[trigger] out@[k]).0@ == xs@[k].0@ && jview(
                                    out@[k].1,
                                ) == jview(xs@[k].1),
                        decreases xs@.len() - i,
                    {
                        out.push((xs[i].0.clone(), clone_json(&xs[i].1)));
                        i = i + 1;
                    }
                    proof {
                        lemma_jview_entries_index(out@);
                        assert(jview_entries(out@) =~~= xv);
                        assert(yv.take(0) =~~= Seq::<(Seq<char>, JsonV)>::empty());
                    }
                    let mut i2: usize = 0;
                    while i2 < ys.len()
                        invariant
                            i2 <= ys@.len(),
                            *a == Json::Obj(*xs),
                            *b == Json::Obj(*ys),
                            xv == jview_entries(xs@),
                            yv == jview_entries(ys@),
                            yv.len() == ys@.len(),
                            jview_entries(out@) == merge_entries(xv, yv.take(i2 as int)),
                        decreases ys@.len() - i2,
                    {
                        let ghost pre = jview_entries(out@);
                        proof {
                            lemma_jview_entries_index(ys@);
                            lemma_jview_entries_index(out@);
                            lemma_merge_entries_push(xv, yv.take(i2 as int), yv[i2 as int]);
                            assert(yv.take(i2 + 1) =~~= yv.take(i2 as int).push(yv[i2 as int]));
                            assert(yv[i2 as int] == (ys@[i2 as int].0@, jview(ys@[i2 as int].1)));
                        }
                        match find_entry(&out, &ys[i2].0) {
                            Some(idx) => {
                                proof {
                                    assert(pre[idx as int].0 == ys@[i2 as int].0@);
                                    assert(forall|j: int|
                                        0 <= j < idx ==> (#[trigger] pre[j]).0 != ys@[
                                        i2 as int].0@);
                                    lemma_merge_entry_found(
                                        pre,
                                        ys@[i2 as int].0@,
                                        jview(ys@[i2 as int].1),
                                        idx as int,
                                    );
                                }
                                let pair = out.remove(idx);
                                proof {
                                    broadcast use vstd::std_specs::vec::axiom_vec_index_decreases;

                                    assert(decreases_to!(*b => b->Obj_0));
                                    assert(decreases_to!(*ys => ys@[i2 as int]));
                                }
                                let merged = merge_json(&pair.1, &ys[i2].1);
                                out.insert(idx, (pair.0, merged));
                                proof {
                                    lemma_jview_entries_index(out@);
                                    assert(jview_entries(out@) =~~= pre.update(
                                        idx as int,
                                        (ys@[i2 as int].0@, merge_v(
                                            pre[idx as int].1,
                                            jview(ys@[i2 as int].1),
                                        )),
                                    ));
                                }
                            },
                            None => {
                                proof {
                                    assert(forall|j: int|
                                        0 <= j < pre.len() ==> (#[trigger] pre[j]).0 != ys@[
                                        i2 as int].0@);
                                    lemma_merge_entry_absent(
                                        pre,
                                        ys@[i2 as int].0@,
                                        jview(ys@[i2 as int].1),
                                    );
                                }
                                proof {
                                    broadcast use vstd::std_specs::vec::axiom_vec_index_decreases;

                                    assert(decreases_to!(*b => b->Obj_0));
                                    assert(decreases_to!(*ys => ys@[i2 as int]));
                                }
                                let copied = clone_json(&ys[i2].1);
                                out.push((ys[i2].0.clone(), copied));
                                proof {
                                    lemma_jview_entries_index(out@);
                                    assert(jview_entries(out@) =~~= pre.push(
                                        (ys@[i2 as int].0@, jview(ys@[i2 as int].1)),
                                    ));
                                }
                            },
                        }
                        i2 = i2 + 1;
                    }
                    proof {
                        assert(yv.take(yv.len() as int) =~~= yv);
                    }
                    Json::Obj(out)
                },
                _ => {
                    proof {
                        assert(!(jview(*a) is Obj));
                    }
                    clone_json(b)
                },
            }
        },
        _ => {
            proof {
                assert(!(jview(*b) is Obj));
            }
            clone_json(b)
        },
    }
}

} // verus!
