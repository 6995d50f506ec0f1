//! A JSON document model. Worker specs, answer documents, agent
//! configurations and flow documents are built here as [`Json`] values;
//! turning text into a [`Json`] and back is left to the callers that do I/O.
use vstd::prelude::*;

verus! {

/// The mathematical value of a [`Json`]: objects are sequences of
/// key/value pairs in insertion order, numbers are their decimal text.
pub enum JsonV {
    JNull,
    JBool(bool),
    JNum(Seq<char>),
    JStr(Seq<char>),
    JArr(Seq<JsonV>),
    JObj(Seq<(Seq<char>, JsonV)>),
}

/// A JSON value. Object keys are unique; numbers keep their decimal text.
#[derive(Debug, PartialEq)]
pub enum Json {
    Null,
    Bool(bool),
    Number(String),
    Str(String),
    Array(Vec<Json>),
    Object(Vec<(String, Json)>),
}

impl Json {
    pub open spec fn model(self) -> JsonV
        decreases self,
    {
        match self {
            Json::Null => JsonV::JNull,
            Json::Bool(b) => JsonV::JBool(b),
            Json::Number(n) => JsonV::JNum(n@),
            Json::Str(s) => JsonV::JStr(s@),
            Json::Array(v) => JsonV::JArr(
                Seq::new(
                    v@.len(),
                    |i: int|
                        if 0 <= i < v@.len() {
                            proof {
                                assert(decreases_to!(v => v@));
                                assert(decreases_to!(v@ => v@[i]));
                            }
                            v@[i].model()
                        } else {
                            JsonV::JNull
                        },
                ),
            ),
            Json::Object(v) => JsonV::JObj(
                Seq::new(
                    v@.len(),
                    |i: int|
                        if 0 <= i < v@.len() {
                            proof {
                                assert(decreases_to!(v => v@));
                                assert(decreases_to!(v@ => v@[i]));
                                assert(decreases_to!(v@[i] => v@[i].1));
                            }
                            (v@[i].0@, v@[i].1.model())
                        } else {
                            (Seq::empty(), JsonV::JNull)
                        },
                ),
            ),
        }
    }
}

impl Json {
    /// A copy of this value with the same model.
    #[verifier::loop_isolation(false)]
    pub fn copy(&self) -> (r: Json)
        ensures
            r@ == self@,
        decreases self,
    {
        match self {
            Json::Null => Json::Null,
            Json::Bool(b) => Json::Bool(*b),
            Json::Number(n) => Json::Number(n.clone()),
            Json::Str(s) => Json::Str(s.clone()),
            Json::Array(v) => {
                let mut out: Vec<Json> = Vec::new();
                let mut i: usize = 0;
                while i < v.len()
                    invariant
                        0 <= i <= v.len(),
                        models(out@) =~= models(v@).take(i as int),
                    decreases v.len() - i,
                {
                    proof {
                        assert(decreases_to!(*self => *v));
                        assert(decreases_to!(*v => v@));
                        assert(decreases_to!(v@ => v@[i as int]));
                    }
                    let x = v[i].copy();
                    push_item(&mut out, x);
                    assert(models(v@).take(i + 1) =~= models(v@).take(i as int).push(v@[i as int]@));
                    i = i + 1;
                }
                assert(models(v@).take(v.len() as int) =~= models(v@));
                proof {
                    lemma_array_model(*v);
                }
                json_array(out)
            },
            Json::Object(v) => {
                let mut out: Vec<(String, Json)> = Vec::new();
                let mut i: usize = 0;
                while i < v.len()
                    invariant
                        0 <= i <= v.len(),
                        entry_models(out@) =~= entry_models(v@).take(i as int),
                    decreases v.len() - i,
                {
                    proof {
                        assert(decreases_to!(*self => *v));
                        assert(decreases_to!(*v => v@));
                        assert(decreases_to!(v@ => v@[i as int]));
                        assert(decreases_to!(v@[i as int] => v@[i as int].1));
                    }
                    let x = v[i].1.copy();
                    let k = v[i].0.clone();
                    let ghost before = out@;
                    out.push((k, x));
                    assert(out@ == before.push((k, x)));
                    assert(entry_models(out@) =~= entry_models(before).push((k@, x@)));
                    assert(entry_models(v@).take(i + 1) =~= entry_models(v@).take(i as int).push((v@[i as int].0@, v@[i as int].1@)));
                    i = i + 1;
                }
                assert(entry_models(v@).take(v.len() as int) =~= entry_models(v@));
                proof {
                    lemma_object_model(*v);
                }
                json_object(out)
            },
        }
    }
}

impl Clone for Json {
    fn clone(&self) -> (r: Json)
        ensures
            r@ == self@,
    {
        self.copy()
    }
}

impl View for Json {
    type V = JsonV;

    open spec fn view(&self) -> JsonV {
        self.model()
    }
}

/// The models of a sequence of values.
pub open spec fn models(s: Seq<Json>) -> Seq<JsonV> {
    Seq::new(s.len(), |i: int| s[i]@)
}

/// The models of a sequence of object entries.
pub open spec fn entry_models(s: Seq<(String, Json)>) -> Seq<(Seq<char>, JsonV)> {
    Seq::new(s.len(), |i: int| (s[i].0@, s[i].1@))
}

/// An array's model is its items' models.
pub proof fn lemma_array_model(v: Vec<Json>)
    ensures
        Json::Array(v)@ == JsonV::JArr(models(v@)),
{
    assert(Json::Array(v)@->JArr_0 =~= models(v@));
}

/// An object's model is its entries' models.
pub proof fn lemma_object_model(v: Vec<(String, Json)>)
    ensures
        Json::Object(v)@ == JsonV::JObj(entry_models(v@)),
{
    assert(Json::Object(v)@->JObj_0 =~= entry_models(v@));
}

/// `i` is the first index of an entry keyed `k`.
pub open spec fn is_first_key(s: Seq<(Seq<char>, JsonV)>, k: Seq<char>, i: int) -> bool {
    0 <= i < s.len() && s[i].0 == k && forall|j: int| 0 <= j < i ==> s[j].0 != k
}

pub open spec fn has_key(s: Seq<(Seq<char>, JsonV)>, k: Seq<char>) -> bool {
    exists|i: int| 0 <= i < s.len() && s[i].0 == k
}

/// The index of the first entry keyed `k` (meaningful when there is one).
pub open spec fn first_key(s: Seq<(Seq<char>, JsonV)>, k: Seq<char>) -> int {
    choose|i: int| is_first_key(s, k, i)
}

/// The first index of `k` is the one that is first.
pub proof fn lemma_first_key(s: Seq<(Seq<char>, JsonV)>, k: Seq<char>, i: int)
    requires
        is_first_key(s, k, i),
    ensures
        first_key(s, k) == i,
{
    let c = first_key(s, k);
    assert(is_first_key(s, k, c));
    if c < i {
        assert(s[c].0 != k);
    } else if c > i {
        assert(s[i].0 != k);
    }
}

/// Map insertion on an object's entries: replace the value under `k` where it is
/// present, append the entry where it is not.
pub open spec fn obj_insert(s: Seq<(Seq<char>, JsonV)>, k: Seq<char>, x: JsonV) -> Seq<(Seq<char>, JsonV)> {
    if has_key(s, k) {
        s.update(first_key(s, k), (k, x))
    } else {
        s.push((k, x))
    }
}

/// The value under `k` in an object's entries, if any.
pub open spec fn obj_get(s: Seq<(Seq<char>, JsonV)>, k: Seq<char>) -> Option<JsonV> {
    if has_key(s, k) {
        Some(s[first_key(s, k)].1)
    } else {
        None
    }
}

/// Entries with `k` at index `i` and nowhere else read `k` there.
pub proof fn lemma_obj_get_only(s: Seq<(Seq<char>, JsonV)>, k: Seq<char>, i: int)
    requires
        0 <= i < s.len(),
        s[i].0 == k,
        forall|j: int| 0 <= j < s.len() && j != i ==> (#[trigger] s[j]).0 != k,
    ensures
        has_key(s, k),
        obj_get(s, k) == Some(s[i].1),
{
    assert(is_first_key(s, k, i));
    lemma_first_key(s, k, i);
}

/// After an insert the key is present and reads back the inserted value.
pub proof fn lemma_obj_insert_has_key(s: Seq<(Seq<char>, JsonV)>, k: Seq<char>, x: JsonV)
    ensures
        has_key(obj_insert(s, k, x), k),
        obj_get(obj_insert(s, k, x), k) == Some(x),
{
    let t = obj_insert(s, k, x);
    if has_key(s, k) {
        let i = choose|i: int| 0 <= i < s.len() && s[i].0 == k;
        let f = first_key_exists(s, k, i);
        lemma_first_key(s, k, f);
        assert(t[f].0 == k);
        assert(is_first_key(t, k, f));
        lemma_first_key(t, k, f);
    } else {
        assert(t[s.len() as int].0 == k);
        assert(is_first_key(t, k, s.len() as int));
        lemma_first_key(t, k, s.len() as int);
    }
}

/// An insert leaves every other key's value as it was.
pub proof fn lemma_obj_insert_other(s: Seq<(Seq<char>, JsonV)>, k: Seq<char>, x: JsonV, q: Seq<char>)
    requires
        q != k,
    ensures
        obj_get(obj_insert(s, k, x), q) == obj_get(s, q),
{
    let t = obj_insert(s, k, x);
    let fk = first_key(s, k);
    if has_key(s, k) {
        let w = choose|i: int| 0 <= i < s.len() && s[i].0 == k;
        let f0 = first_key_exists(s, k, w);
        lemma_first_key(s, k, f0);
        assert(t == s.update(fk, (k, x)));
    } else {
        assert(t == s.push((k, x)));
    }
    assert forall|j: int| 0 <= j < t.len() && t[j].0 == q implies j < s.len() && s[j].0 == q by {
        if has_key(s, k) {
            if j == fk {
                assert(t[j].0 == k);
            }
        } else {
            if j == s.len() {
                assert(t[j].0 == k);
            }
        }
    }
    if has_key(s, q) {
        let i = choose|i: int| 0 <= i < s.len() && s[i].0 == q;
        let f = first_key_exists(s, q, i);
        lemma_first_key(s, q, f);
        if has_key(s, k) {
            assert(f != fk);
        }
        assert(t[f].0 == q);
        assert(is_first_key(t, q, f));
        lemma_first_key(t, q, f);
        assert(has_key(t, q));
    } else {
        assert(!has_key(t, q));
    }
}

/// Where some entry is keyed `k`, there is a first one.
pub proof fn first_key_exists(s: Seq<(Seq<char>, JsonV)>, k: Seq<char>, i: int) -> (f: int)
    requires
        0 <= i < s.len(),
        s[i].0 == k,
    ensures
        is_first_key(s, k, f),
    decreases i,
{
    if exists|j: int| 0 <= j < i && s[j].0 == k {
        let j = choose|j: int| 0 <= j < i && s[j].0 == k;
        first_key_exists(s, k, j)
    } else {
        i
    }
}

/// A JSON string.
pub fn json_str(s: &str) -> (r: Json)
    ensures
        r@ == JsonV::JStr(s@),
{
    Json::Str(s.to_owned())
}

/// The JSON of an optional string: `null` when absent.
pub open spec fn opt_str_model(o: Option<String>) -> JsonV {
    match o {
        Some(s) => JsonV::JStr(s@),
        None => JsonV::JNull,
    }
}

/// A JSON string, or `null` when absent.
pub fn json_opt_string(o: &Option<String>) -> (r: Json)
    ensures
        r@ == opt_str_model(*o),
{
    match o {
        Some(s) => Json::Str(s.clone()),
        None => Json::Null,
    }
}

/// A JSON array of the given items.
pub fn json_array(v: Vec<Json>) -> (r: Json)
    ensures
        r@ == JsonV::JArr(models(v@)),
{
    proof {
        lemma_array_model(v);
    }
    Json::Array(v)
}

/// A JSON object of the given entries.
pub fn json_object(v: Vec<(String, Json)>) -> (r: Json)
    ensures
        r@ == JsonV::JObj(entry_models(v@)),
{
    proof {
        lemma_object_model(v);
    }
    Json::Object(v)
}

/// Append a value to an array under construction.
pub fn push_item(v: &mut Vec<Json>, x: Json)
    ensures
        models(final(v)@) == models(old(v)@).push(x@),
{
    v.push(x);
    assert(models(v@) =~= models(old(v)@).push(x@));
}

/// Append an entry to an object under construction.
pub fn push_entry(v: &mut Vec<(String, Json)>, k: &str, x: Json)
    ensures
        entry_models(final(v)@) == entry_models(old(v)@).push((k@, x@)),
{
    v.push((k.to_owned(), x));
    assert(entry_models(v@) =~= entry_models(old(v)@).push((k@, x@)));
}

/// Insert (or replace) an entry of an object under construction.
pub fn insert_entry(v: &mut Vec<(String, Json)>, k: String, x: Json)
    ensures
        entry_models(final(v)@) == obj_insert(entry_models(old(v)@), k@, x@),
{
    let ghost m = entry_models(v@);
    let mut i: usize = 0;
    while i < v.len()
        invariant
            0 <= i <= v.len(),
            v@ == old(v)@,
            m == entry_models(v@),
            forall|j: int| 0 <= j < i ==> m[j].0 != k@,
        decreases v.len() - i,
    {
        if v[i].0 == k {
            proof {
                assert(m[i as int].0 == k@);
                lemma_first_key(m, k@, i as int);
                assert(has_key(m, k@));
            }
            v.set(i, (k, x));
            assert(entry_models(v@) =~= m.update(i as int, (k@, x@)));
            return;
        }
        i = i + 1;
    }
    proof {
        assert(!has_key(m, k@));
    }
    v.push((k, x));
    assert(entry_models(v@) =~= m.push((k@, x@)));
}

/// The value under `k` of an object (none for any other value).
pub fn object_get<'a>(j: &'a Json, k: &str) -> (r: Option<&'a Json>)
    ensures
        match j@ {
            JsonV::JObj(e) => match r {
                Some(v) => obj_get(e, k@) == Some(v@),
                None => obj_get(e, k@) is None,
            },
            _ => r is None,
        },
{
    match j {
        Json::Object(v) => {
            proof {
                lemma_object_model(*v);
            }
            let ghost m = entry_models(v@);
            let mut i: usize = 0;
            while i < v.len()
                invariant
                    0 <= i <= v.len(),
                    m == entry_models(v@),
                    j@ == JsonV::JObj(m),
                    forall|q: int| 0 <= q < i ==> m[q].0 != k@,
                decreases v.len() - i,
            {
                if v[i].0 == k.to_owned() {
                    proof {
                        assert(m[i as int].0 == k@);
                        assert(is_first_key(m, k@, i as int));
                        lemma_first_key(m, k@, i as int);
                        assert(has_key(m, k@));
                        assert(m[i as int].1 == v@[i as int].1@);
                    }
                    return Some(&v[i].1);
                }
                i = i + 1;
            }
            None
        },
        _ => None,
    }
}

} // verus!
