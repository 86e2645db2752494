use vstd::prelude::*;

verus! {

/// A JSON number as it was written: a non-negative integer, a negative
/// integer, or anything else, kept as its decimal text.
#[derive(Debug, PartialEq)]
pub enum JsonNumber {
    PosInt(u64),
    NegInt(i64),
    Float(String),
}

/// A JSON document: the metadata records that citation rendering reads.
/// Object members keep the order they were given in.
#[derive(Debug, PartialEq)]
pub enum Json {
    Null,
    Bool(bool),
    Number(JsonNumber),
    Str(String),
    Array(Vec<Json>),
    Object(Vec<(String, Json)>),
}

/// The mathematical value of a `JsonNumber`.
pub enum NumberV {
    PosInt(u64),
    NegInt(i64),
    Float(Seq<char>),
}

/// The mathematical value of a JSON document.
pub enum JsonV {
    Null,
    Bool(bool),
    Number(NumberV),
    Str(Seq<char>),
    Array(Seq<JsonV>),
    Object(Seq<(Seq<char>, JsonV)>),
}

impl JsonNumber {
    pub open spec fn view(self) -> NumberV {
        match self {
            JsonNumber::PosInt(n) => NumberV::PosInt(n),
            JsonNumber::NegInt(n) => NumberV::NegInt(n),
            JsonNumber::Float(t) => NumberV::Float(t@),
        }
    }
}

impl Json {
    pub open spec fn view(self) -> JsonV
        decreases self,
    {
        match self {
            Json::Null => JsonV::Null,
            Json::Bool(b) => JsonV::Bool(b),
            Json::Number(n) => JsonV::Number(n.view()),
            Json::Str(s) => JsonV::Str(s@),
            Json::Array(a) => JsonV::Array(views_of(a@)),
            Json::Object(m) => JsonV::Object(entry_views(m@)),
        }
    }
}

/// The values of a list of documents.
pub open spec fn views_of(s: Seq<Json>) -> Seq<JsonV>
    decreases s,
{
    if s.len() == 0 {
        seq![]
    } else {
        views_of(s.drop_last()).push(s.last().view())
    }
}

/// The values of a list of object members.
pub open spec fn entry_views(s: Seq<(String, Json)>) -> Seq<(Seq<char>, JsonV)>
    decreases s,
{
    if s.len() == 0 {
        seq![]
    } else {
        entry_views(s.drop_last()).push((s.last().0@, s.last().1.view()))
    }
}

pub proof fn lemma_views_of(s: Seq<Json>)
    ensures
        views_of(s).len() == s.len(),
        forall|i: int| 0 <= i < s.len() ==> #[trigger] views_of(s)[i] == s[i].view(),
    decreases s.len(),
{
    if s.len() > 0 {
        lemma_views_of(s.drop_last());
        assert forall|i: int| 0 <= i < s.len() implies #[trigger] views_of(s)[i] == s[i].view() by {
            if i < s.len() - 1 {
                assert(views_of(s)[i] == views_of(s.drop_last())[i]);
            }
        }
    }
}

pub proof fn lemma_entry_views(s: Seq<(String, Json)>)
    ensures
        entry_views(s).len() == s.len(),
        forall|i: int|
            0 <= i < s.len() ==> #[trigger] entry_views(s)[i] == (s[i].0@, s[i].1.view()),
    decreases s.len(),
{
    if s.len() > 0 {
        lemma_entry_views(s.drop_last());
        assert forall|i: int| 0 <= i < s.len() implies #[trigger] entry_views(s)[i] == (
            s[i].0@,
            s[i].1.view(),
        ) by {
            if i < s.len() - 1 {
                assert(entry_views(s)[i] == entry_views(s.drop_last())[i]);
            }
        }
    }
}

impl Clone for JsonNumber {
    fn clone(&self) -> (r: Self)
        ensures
            r@ == self@,
    {
        match self {
            JsonNumber::PosInt(n) => JsonNumber::PosInt(*n),
            JsonNumber::NegInt(n) => JsonNumber::NegInt(*n),
            JsonNumber::Float(t) => JsonNumber::Float(t.clone()),
        }
    }
}

impl Clone for Json {
    #[verifier::loop_isolation(false)]
    fn clone(&self) -> (r: Self)
        ensures
            r@ == self@,
        decreases self,
    {
        match self {
            Json::Null => Json::Null,
            Json::Bool(b) => Json::Bool(*b),
            Json::Number(n) => Json::Number(n.clone()),
            Json::Str(s) => Json::Str(s.clone()),
            Json::Array(a) => {
                let mut v: Vec<Json> = Vec::new();
                let mut i: usize = 0;
                while i < a.len()
                    invariant
                        i <= a@.len(),
                        v@.len() == i,
                        forall|j: int| 0 <= j < i ==> (#[trigger] v@[j]).view() == a@[j].view(),
                    decreases a@.len() - i,
                {
                    assert(decreases_to!(*a => a[i as int]));
                    assert(decreases_to!(*self => *a));
                    let x = a[i].clone();
                    v.push(x);
                    i = i + 1;
                }
                proof {
                    lemma_views_of(v@);
                    lemma_views_of(a@);
                    assert(views_of(v@) =~= views_of(a@));
                }
                Json::Array(v)
            },
            Json::Object(m) => {
                let mut v: Vec<(String, Json)> = Vec::new();
                let mut i: usize = 0;
                while i < m.len()
                    invariant
                        i <= m@.len(),
                        v@.len() == i,
                        forall|j: int|
                            0 <= j < i ==> (#[trigger] v@[j]).0@ == m@[j].0@ && v@[j].1.view()
                                == m@[j].1.view(),
                    decreases m@.len() - i,
                {
                    assert(decreases_to!(*m => m[i as int]));
                    assert(decreases_to!(*self => *m));
                    let k = m[i].0.clone();
                    let x = m[i].1.clone();
                    v.push((k, x));
                    i = i + 1;
                }
                proof {
                    lemma_entry_views(v@);
                    lemma_entry_views(m@);
                    assert(entry_views(v@) =~= entry_views(m@));
                }
                Json::Object(v)
            },
        }
    }
}

/// The value stored under `key` among `entries`; the first entry wins.
pub open spec fn lookup(entries: Seq<(Seq<char>, JsonV)>, key: Seq<char>) -> Option<JsonV>
    decreases entries.len(),
{
    if entries.len() == 0 {
        None
    } else if entries[0].0 == key {
        Some(entries[0].1)
    } else {
        lookup(entries.drop_first(), key)
    }
}

impl JsonV {
    /// The member `key` of an object, if the value is an object that has it.
    pub open spec fn get(self, key: Seq<char>) -> Option<JsonV> {
        match self {
            JsonV::Object(m) => lookup(m, key),
            _ => None,
        }
    }

    /// `value[key]`: the member `key`, or `null` when there is none.
    pub open spec fn at(self, key: Seq<char>) -> JsonV {
        match self.get(key) {
            Some(v) => v,
            None => JsonV::Null,
        }
    }

    /// `value.as_str()`.
    pub open spec fn as_str(self) -> Option<Seq<char>> {
        match self {
            JsonV::Str(s) => Some(s),
            _ => None,
        }
    }

    /// `value.as_str().unwrap_or("")`.
    pub open spec fn str_or_empty(self) -> Seq<char> {
        match self {
            JsonV::Str(s) => s,
            _ => seq![],
        }
    }

    /// `value.as_u64()`.
    pub open spec fn as_u64(self) -> Option<u64> {
        match self {
            JsonV::Number(NumberV::PosInt(n)) => Some(n),
            _ => None,
        }
    }

    /// `value.as_array()`.
    pub open spec fn as_array(self) -> Option<Seq<JsonV>> {
        match self {
            JsonV::Array(a) => Some(a),
            _ => None,
        }
    }

    /// `value.is_null()`.
    pub open spec fn is_null(self) -> bool {
        self is Null
    }
}

impl Json {
    /// The member `key` of an object (`Map::get` on an object).
    pub fn get(&self, key: &str) -> (r: Option<&Json>)
        ensures
            r matches Some(v) ==> self@.get(key@) == Some(v@),
            r is None <==> self@.get(key@) is None,
    {
        match self {
            Json::Object(m) => {
                let ghost es = entry_views(m@);
                proof {
                    lemma_entry_views(m@);
                    assert(es.skip(0) =~= es);
                }
                let mut i: usize = 0;
                while i < m.len()
                    invariant
                        es == entry_views(m@),
                        self@ == JsonV::Object(es),
                        es.len() == m@.len(),
                        forall|j: int| 0 <= j < m@.len() ==> #[trigger] es[j] == (m@[j].0@, m@[j].1.view()),
                        i <= m@.len(),
                        lookup(es, key@) == lookup(es.skip(i as int), key@),
                    decreases m@.len() - i,
                {
                    assert(es.skip(i as int).drop_first() =~= es.skip(i + 1));
                    assert(es.skip(i as int)[0] == es[i as int]);
                    if str_eq(m[i].0.as_str(), key) {
                        return Some(&m[i].1);
                    }
                    i = i + 1;
                }
                assert(es.skip(i as int) =~= Seq::<(Seq<char>, JsonV)>::empty());
                None
            },
            _ => None,
        }
    }

    /// `value[key]` when it is a string (`value[key].as_str()`).
    pub fn get_str(&self, key: &str) -> (r: Option<&str>)
        ensures
            r matches Some(s) ==> self@.at(key@).as_str() == Some(s@),
            r is None <==> self@.at(key@).as_str() is None,
    {
        match self.get(key) {
            Some(v) => v.as_str(),
            None => None,
        }
    }

    /// `value.as_str()`.
    pub fn as_str(&self) -> (r: Option<&str>)
        ensures
            r matches Some(s) ==> self@.as_str() == Some(s@),
            r is None <==> self@.as_str() is None,
    {
        match self {
            Json::Str(s) => Some(s.as_str()),
            _ => None,
        }
    }

    /// `value.as_u64()`.
    pub fn as_u64(&self) -> (r: Option<u64>)
        ensures
            r == self@.as_u64(),
    {
        match self {
            Json::Number(JsonNumber::PosInt(n)) => Some(*n),
            _ => None,
        }
    }

    /// `value.as_array()`.
    pub fn as_array(&self) -> (r: Option<&Vec<Json>>)
        ensures
            r matches Some(a) ==> self@.as_array() == Some(views_of(a@)),
            r is None <==> self@.as_array() is None,
    {
        match self {
            Json::Array(a) => Some(a),
            _ => None,
        }
    }

    /// `value.is_null()`.
    pub fn is_null(&self) -> (r: bool)
        ensures
            r == self@.is_null(),
    {
        match self {
            Json::Null => true,
            _ => false,
        }
    }
}

/// Equality of two strings by their characters.
pub fn str_eq(a: &str, b: &str) -> (r: bool)
    ensures
        r == (a@ == b@),
{
    let x = crate::text::chars_of(a);
    let y = crate::text::chars_of(b);
    if x.len() != y.len() {
        return false;
    }
    assert(x@.subrange(0, y@.len() as int) =~= x@);
    crate::text::occurs_at(&x, 0, &y)
}

} // verus!
