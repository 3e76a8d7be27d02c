//! A JSON document as plain values, and the parse of JSON text into them.

use vstd::prelude::*;
use crate::text::chars_of;

verus! {

/// A parsed JSON value. A number keeps its decimal text; an object keeps its
/// members in order, each key once (see [`keys_unique`]; lookups find the
/// first member of a key).
pub enum Json {
    Null,
    Bool(bool),
    Number(String),
    Str(String),
    Array(Vec<Json>),
    Object(Vec<(String, Json)>),
}

/// The first member named `key`.
pub open spec fn lookup(members: Seq<(String, Json)>, key: Seq<char>) -> Option<Json>
    decreases members.len(),
{
    if members.len() == 0 {
        None
    } else if members[0].0@ == key {
        Some(members[0].1)
    } else {
        lookup(members.drop_first(), key)
    }
}

/// Each key occurs once among an object's members, as in a parsed JSON
/// document (a parser keeps one member per key).
pub open spec fn keys_unique(members: Seq<(String, Json)>) -> bool {
    forall|i: int, j: int|
        0 <= i < j < members.len() ==> (#[trigger] members[i]).0@ != (#[trigger] members[j]).0@
}

/// With each key once, looking a key up finds its member, wherever it
/// stands: the order of the members does not matter.
pub proof fn lemma_lookup_member(members: Seq<(String, Json)>, i: int)
    requires
        keys_unique(members),
        0 <= i < members.len(),
    ensures
        lookup(members, members[i].0@) == Some(members[i].1),
    decreases members.len(),
{
    if i > 0 {
        let rest = members.drop_first();
        assert forall|p: int, q: int| 0 <= p < q < rest.len() implies (#[trigger] rest[p]).0@
            != (#[trigger] rest[q]).0@ by {
            assert(members[p + 1].0@ != members[q + 1].0@);
        }
        assert(members[0].0@ != members[i].0@);
        lemma_lookup_member(rest, i - 1);
    }
}

impl Json {
    /// `Value::get(key)`: the member `key` of an object; `None` for a missing
    /// member or a value that is not an object.
    pub open spec fn spec_get(self, key: Seq<char>) -> Option<Json> {
        match self {
            Json::Object(members) => lookup(members@, key),
            _ => None,
        }
    }

    /// `Value::as_str`.
    pub open spec fn spec_str(self) -> Option<Seq<char>> {
        match self {
            Json::Str(s) => Some(s@),
            _ => None,
        }
    }

    /// `Value::get(key).and_then(Value::as_str)`.
    pub open spec fn spec_get_str(self, key: Seq<char>) -> Option<Seq<char>> {
        match self.spec_get(key) {
            Some(v) => v.spec_str(),
            None => None,
        }
    }

    pub fn get(&self, key: &str) -> (r: Option<&Json>)
        ensures
            match r {
                Some(v) => self.spec_get(key@) == Some(*v),
                None => self.spec_get(key@) is None,
            },
    {
        match self {
            Json::Object(members) => {
                let k = chars_of(key);
                let n = members.len();
                let mut i: usize = 0;
                assert(members@.skip(0) =~= members@);
                while i < n
                    invariant
                        n == members@.len(),
                        k@ == key@,
                        i <= n,
                        self.spec_get(key@) == lookup(members@, key@),
                        lookup(members@, key@) == lookup(members@.skip(i as int), key@),
                    decreases n - i,
                {
                    let ghost rest = members@.skip(i as int);
                    assert(rest.drop_first() =~= members@.skip(i + 1));
                    assert(rest[0] == members@[i as int]);
                    if str_is(&members[i].0, &k) {
                        assert(lookup(rest, key@) == Some(members@[i as int].1));
                        return Some(&members[i].1);
                    }
                    i = i + 1;
                }
                None
            },
            _ => None,
        }
    }

    pub fn as_str(&self) -> (r: Option<&String>)
        ensures
            match r {
                Some(s) => self.spec_str() == Some(s@),
                None => self.spec_str() is None,
            },
    {
        match self {
            Json::Str(s) => Some(s),
            _ => None,
        }
    }

    pub fn get_str(&self, key: &str) -> (r: Option<&String>)
        ensures
            match r {
                Some(s) => self.spec_get_str(key@) == Some(s@),
                None => self.spec_get_str(key@) is None,
            },
    {
        match self.get(key) {
            Some(v) => v.as_str(),
            None => None,
        }
    }
}

/// Whether `s` holds exactly the characters `k`.
pub fn str_is(s: &String, k: &Vec<char>) -> (r: bool)
    ensures
        r == (s@ == k@),
{
    let v = chars_of(s.as_str());
    if v.len() != k.len() {
        return false;
    }
    let n = v.len();
    let mut i: usize = 0;
    while i < n
        invariant
            n == v.len() == k.len(),
            v@ == s@,
            i <= n,
            forall|j: int| 0 <= j < i ==> v@[j] == k@[j],
        decreases n - i,
    {
        if v[i] != k[i] {
            return false;
        }
        i = i + 1;
    }
    assert(v@ =~= k@);
    true
}


/// What `serde_json` makes of a JSON text: the document, or the parser's
/// error message.
pub uninterp spec fn json_text(text: Seq<char>) -> Result<Json, Seq<char>>;

/// The document a JSON text holds, if it is JSON.
pub open spec fn parsed(text: Seq<char>) -> Option<Json> {
    match json_text(text) {
        Ok(j) => Some(j),
        Err(_) => None,
    }
}

/// `serde_json::Value`, carried through opaquely.
#[verifier::external_type_specification]
#[verifier::external_body]
pub struct ExJsonValue(serde_json::Value);

/// The library's value for a `serde_json::Value`, variant by variant; a
/// number keeps the text `serde_json` prints for it.
#[verifier::external_body]
fn value_to_json(v: &serde_json::Value) -> Json {
    match v {
        serde_json::Value::Null => Json::Null,
        serde_json::Value::Bool(b) => Json::Bool(*b),
        serde_json::Value::Number(n) => Json::Number(n.to_string()),
        serde_json::Value::String(t) => Json::Str(t.clone()),
        serde_json::Value::Array(a) => Json::Array(a.iter().map(value_to_json).collect()),
        serde_json::Value::Object(m) => Json::Object(
            m.iter().map(|(k, x)| (k.clone(), value_to_json(x))).collect(),
        ),
    }
}

/// `serde_json::from_str::<serde_json::Value>`: the document in `text`, or
/// the parser's error message. Nothing is claimed of the parse but that it
/// depends on the text alone ([`json_text`]), and that an object, held in a
/// map, has each key once.
#[verifier::external_body]
pub(crate) fn parse_json(text: &str) -> (r: Result<Json, String>)
    ensures
        match r {
            Ok(j) => json_text(text@) == Ok::<Json, Seq<char>>(j),
            Err(m) => json_text(text@) == Err::<Json, Seq<char>>(m@),
        },
        r matches Ok(Json::Object(m)) ==> keys_unique(m@),
{
    match serde_json::from_str::<serde_json::Value>(text) {
        Ok(v) => Ok(value_to_json(&v)),
        Err(e) => Err(e.to_string()),
    }
}

} // verus!
