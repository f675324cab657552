//! A JSON value the library reads and builds: manifests and documents.
//! Parsing and printing JSON text happen outside the library; they convert
//! to and from this type one value at a time.
use vstd::prelude::*;
use crate::text::chars_of;

verus! {

/// A JSON number as `serde_json` holds it: a non-negative integer, a
/// negative integer, or a floating-point number kept as its shortest
/// decimal text.
#[derive(Debug, PartialEq)]
pub enum JsonNumber {
    PosInt(u64),
    NegInt(i64),
    Float(String),
}

/// A JSON value. Object members keep their keys unique.
#[derive(Debug)]
pub enum Json {
    Null,
    Bool(bool),
    Number(JsonNumber),
    Str(String),
    Array(Vec<Json>),
    Object(Vec<(String, Json)>),
}

/// Whether two strings hold the same characters (`str == str`).
pub fn str_eq(a: &str, b: &str) -> (res: bool)
    ensures
        res == (a@ == b@),
{
    let x = chars_of(a);
    let y = chars_of(b);
    if x.len() != y.len() {
        return false;
    }
    let n = x.len();
    for i in 0..n
        invariant
            n == x@.len(),
            n == y@.len(),
            x@ == a@,
            y@ == b@,
            forall|j: int| 0 <= j < i ==> x@[j] == y@[j],
    {
        if x[i] != y[i] {
            return false;
        }
    }
    assert(x@ =~= y@);
    true
}

/// Index of the first member named `key`, or -1.
pub open spec fn field_index(fields: Seq<(String, Json)>, key: Seq<char>) -> int
    decreases fields.len(),
{
    if fields.len() == 0 {
        -1
    } else if fields[0].0@ == key {
        0
    } else {
        let r = field_index(fields.drop_first(), key);
        if r < 0 {
            -1
        } else {
            r + 1
        }
    }
}

pub proof fn lemma_field_index(fields: Seq<(String, Json)>, key: Seq<char>)
    ensures
        -1 <= field_index(fields, key) < fields.len(),
        field_index(fields, key) >= 0 ==> fields[field_index(fields, key)].0@ == key,
        forall|j: int| 0 <= j < fields.len() && (j < field_index(fields, key) || field_index(fields, key) < 0)
            ==> #[trigger] fields[j].0@ != key,
    decreases fields.len(),
{
    if fields.len() > 0 {
        lemma_field_index(fields.drop_first(), key);
        assert forall|j: int| 0 <= j < fields.len() && (j < field_index(fields, key) || field_index(fields, key) < 0)
            implies #[trigger] fields[j].0@ != key by {
            if j > 0 {
                assert(fields[j] == fields.drop_first()[j - 1]);
            }
        }
    }
}

proof fn lemma_field_index_same_keys(a: Seq<(String, Json)>, b: Seq<(String, Json)>, key: Seq<char>)
    requires
        a.len() == b.len(),
        forall|j: int| 0 <= j < a.len() ==> #[trigger] a[j].0@ == b[j].0@,
    ensures
        field_index(a, key) == field_index(b, key),
    decreases a.len(),
{
    if a.len() > 0 {
        lemma_field_index_same_keys(a.drop_first(), b.drop_first(), key);
        assert forall|j: int| 0 <= j < a.len() - 1 implies #[trigger] a.drop_first()[j].0@ == b.drop_first()[j].0@ by {
            assert(a[j + 1].0@ == b[j + 1].0@);
        }
        assert(a[0].0@ == b[0].0@);
    }
}

proof fn lemma_field_index_push(a: Seq<(String, Json)>, f: (String, Json), key: Seq<char>)
    ensures
        field_index(a.push(f), key) == if field_index(a, key) >= 0 {
            field_index(a, key)
        } else if f.0@ == key {
            a.len() as int
        } else {
            -1
        },
    decreases a.len(),
{
    if a.len() > 0 {
        assert(a.push(f).drop_first() =~= a.drop_first().push(f));
        assert(a.push(f)[0] == a[0]);
        lemma_field_index_push(a.drop_first(), f, key);
    } else {
        assert(a.push(f).drop_first() =~= Seq::<(String, Json)>::empty());
        assert(field_index(Seq::<(String, Json)>::empty(), key) == -1);
        assert(a.push(f)[0] == f);
    }
}

/// The member `key` of an object; `None` for absent members and non-objects
/// (`serde_json::Value::get`).
pub open spec fn json_get(j: Json, key: Seq<char>) -> Option<Json> {
    match j {
        Json::Object(fields) => {
            let i = field_index(fields@, key);
            if i >= 0 {
                Some(fields@[i].1)
            } else {
                None
            }
        },
        _ => None,
    }
}

/// The string a value holds (`Value::as_str`).
pub open spec fn as_str_spec(j: Option<Json>) -> Option<Seq<char>> {
    match j {
        Some(Json::Str(s)) => Some(s@),
        _ => None,
    }
}

/// The `u64` a value holds (`Value::as_u64`).
pub open spec fn as_u64_spec(j: Option<Json>) -> Option<u64> {
    match j {
        Some(Json::Number(JsonNumber::PosInt(n))) => Some(n),
        _ => None,
    }
}

/// The number of members of an object (0 for other values).
pub open spec fn member_count(j: Json) -> int {
    match j {
        Json::Object(fields) => fields@.len() as int,
        _ => 0,
    }
}

/// The text `o` holds, or `d`.
pub open spec fn or_default(o: Option<Seq<char>>, d: Seq<char>) -> Seq<char> {
    match o {
        Some(s) => s,
        None => d,
    }
}

pub open spec fn str_field(j: Json, key: Seq<char>) -> Option<Seq<char>> {
    as_str_spec(json_get(j, key))
}

pub open spec fn u64_field(j: Json, key: Seq<char>) -> Option<u64> {
    as_u64_spec(json_get(j, key))
}

/// Index of the first member named `key`.
fn find_field(fields: &Vec<(String, Json)>, key: &str) -> (r: Option<usize>)
    ensures
        match r {
            Some(i) => i as int == field_index(fields@, key@),
            None => field_index(fields@, key@) < 0,
        },
{
    proof { lemma_field_index(fields@, key@); }
    let n = fields.len();
    for i in 0..n
        invariant
            n == fields@.len(),
            forall|j: int| 0 <= j < i ==> #[trigger] fields@[j].0@ != key@,
            field_index(fields@, key@) < 0 || field_index(fields@, key@) >= i,
    {
        proof { lemma_field_index(fields@, key@); }
        if str_eq(fields[i].0.as_str(), key) {
            return Some(i);
        }
        assert(fields@[i as int].0@ != key@);
    }
    None
}

impl Json {
    /// `Value::get` with a string key.
    pub fn get(&self, key: &str) -> (res: Option<&Json>)
        ensures
            match res {
                Some(r) => json_get(*self, key@) == Some(*r),
                None => json_get(*self, key@) is None,
            },
    {
        match self {
            Json::Object(fields) => match find_field(fields, key) {
                Some(i) => {
                    proof { lemma_field_index(fields@, key@); }
                    Some(&fields[i].1)
                },
                None => None,
            },
            _ => None,
        }
    }

    /// `Value::as_str`.
    pub fn as_str(&self) -> (res: Option<&str>)
        ensures
            match res {
                Some(r) => as_str_spec(Some(*self)) == Some(r@),
                None => as_str_spec(Some(*self)) is None,
            },
    {
        match self {
            Json::Str(s) => Some(s.as_str()),
            _ => None,
        }
    }

    /// `Value::as_u64`.
    pub fn as_u64(&self) -> (res: Option<u64>)
        ensures
            res == as_u64_spec(Some(*self)),
    {
        match self {
            Json::Number(JsonNumber::PosInt(n)) => Some(*n),
            _ => None,
        }
    }

    /// An empty object.
    pub fn object() -> (j: Json)
        ensures
            j matches Json::Object(fields) && fields@.len() == 0,
            member_count(j) == 0,
            forall|k: Seq<char>| #[trigger] json_get(j, k) is None,
    {
        let j = Json::Object(Vec::new());
        assert forall|k: Seq<char>| #[trigger] json_get(j, k) is None by {
            assert(field_index(Seq::<(String, Json)>::empty(), k) == -1);
        }
        j
    }

    /// `value[key] = v`: on an object, replaces the member `key` or adds it;
    /// `null` first becomes an empty object. Other values make
    /// `serde_json` panic, so they are left out.
    pub fn set(&mut self, key: &str, v: Json)
        requires
            *old(self) is Object || *old(self) is Null,
        ensures
            *final(self) is Object,
            json_get(*final(self), key@) == Some(v),
            forall|k: Seq<char>| k != key@ ==> #[trigger] json_get(*final(self), k) == json_get(*old(self), k),
            member_count(*final(self)) == member_count(*old(self)) + if json_get(*old(self), key@) is Some {
                0int
            } else {
                1int
            },
    {
        if let Json::Null = self {
            *self = Json::Object(Vec::new());
        }
        let ghost start = *self;
        proof {
            assert forall|k: Seq<char>| #[trigger] json_get(start, k) == json_get(*old(self), k) by {
                if *old(self) is Null {
                    assert(field_index(Seq::<(String, Json)>::empty(), k) == -1);
                }
            }
        }
        match self {
            Json::Object(fields) => {
                let ghost old_fields = fields@;
                proof { lemma_field_index(old_fields, key@); }
                match find_field(fields, key) {
                    Some(i) => {
                        let (name, _) = fields.remove(i);
                        fields.insert(i, (name, v));
                        proof {
                            assert(fields@ =~= old_fields.update(i as int, (name, v)));
                            assert forall|k: Seq<char>| k != key@ implies
                                #[trigger] json_get(Json::Object(*fields), k) == json_get(start, k) by {
                                lemma_field_index_same_keys(fields@, old_fields, k);
                                lemma_field_index(old_fields, k);
                            }
                            lemma_field_index_same_keys(fields@, old_fields, key@);
                        }
                    },
                    None => {
                        let name = String::from_str(key);
                        fields.push((name, v));
                        proof {
                            assert forall|k: Seq<char>| k != key@ implies
                                #[trigger] json_get(Json::Object(*fields), k) == json_get(start, k) by {
                                lemma_field_index_push(old_fields, (name, v), k);
                                lemma_field_index(old_fields, k);
                                assert(fields@ == old_fields.push((name, v)));
                            }
                            lemma_field_index_push(old_fields, (name, v), key@);
                        }
                    },
                }
            },
            _ => {},
        }
    }

    /// `value[outer][inner] = v`: an absent `outer` member is added as an
    /// empty object, and `null`s on the way become empty objects. Anything
    /// else on the way makes `serde_json` panic, so it is left out.
    pub fn set_nested(&mut self, outer: &str, inner: &str, v: Json)
        requires
            *old(self) is Object || *old(self) is Null,
            match json_get(*old(self), outer@) {
                Some(o) => o is Object || o is Null,
                None => true,
            },
        ensures
            *final(self) is Object,
            json_get(*final(self), outer@) matches Some(o) && o is Object && json_get(o, inner@) == Some(v)
                && forall|k: Seq<char>| k != inner@ ==> #[trigger] json_get(o, k) == match json_get(*old(self), outer@) {
                    Some(o0) => json_get(o0, k),
                    None => None,
                },
            forall|k: Seq<char>| k != outer@ ==> #[trigger] json_get(*final(self), k) == json_get(*old(self), k),
    {
        if let Json::Null = self {
            *self = Json::Object(Vec::new());
        }
        let ghost start = *self;
        proof {
            assert forall|k: Seq<char>| #[trigger] json_get(start, k) == json_get(*old(self), k) by {
                if *old(self) is Null {
                    assert(field_index(Seq::<(String, Json)>::empty(), k) == -1);
                }
            }
        }
        match self {
            Json::Object(fields) => {
                let ghost old_fields = fields@;
                proof { lemma_field_index(old_fields, outer@); }
                match find_field(fields, outer) {
                    Some(i) => {
                        let (name, mut o) = fields.remove(i);
                        let ghost o0 = o;
                        o.set(inner, v);
                        fields.insert(i, (name, o));
                        proof {
                            assert(fields@ =~= old_fields.update(i as int, (name, o)));
                            assert forall|k: Seq<char>| k != outer@ implies
                                #[trigger] json_get(Json::Object(*fields), k) == json_get(start, k) by {
                                lemma_field_index_same_keys(fields@, old_fields, k);
                                lemma_field_index(old_fields, k);
                            }
                            lemma_field_index_same_keys(fields@, old_fields, outer@);
                            assert(json_get(start, outer@) == Some(o0));
                        }
                    },
                    None => {
                        let name = String::from_str(outer);
                        let mut o = Json::object();
                        let ghost o0 = o;
                        o.set(inner, v);
                        fields.push((name, o));
                        proof {
                            assert forall|k: Seq<char>| k != outer@ implies
                                #[trigger] json_get(Json::Object(*fields), k) == json_get(start, k) by {
                                lemma_field_index_push(old_fields, (name, o), k);
                                lemma_field_index(old_fields, k);
                                assert(fields@ == old_fields.push((name, o)));
                            }
                            lemma_field_index_push(old_fields, (name, o), outer@);
                            assert(fields@ == old_fields.push((name, o)));
                            assert forall|k: Seq<char>| k != inner@ implies #[trigger] json_get(o, k) == None::<Json> by {
                                assert(json_get(o0, k) is None);
                            }
                        }
                    },
                }
            },
            _ => {},
        }
    }

    /// A string value.
    pub fn string(s: &str) -> (j: Json)
        ensures
            j matches Json::Str(t) && t@ == s@,
    {
        Json::Str(String::from_str(s))
    }

    /// A non-negative integer value.
    pub fn uint(n: u64) -> (j: Json)
        ensures
            j == Json::Number(JsonNumber::PosInt(n)),
    {
        Json::Number(JsonNumber::PosInt(n))
    }
}

} // verus!
