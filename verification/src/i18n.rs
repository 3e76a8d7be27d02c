//! Localized strings for the tray, tooltip and menu.

use vstd::prelude::*;
use crate::json::{parse_json, parsed, str_is, Json};
use crate::config::spec_locale_from_os;
use crate::text::{chars_of, string_is};

verus! {

/// A table of localized strings, each key once.
pub struct Strings {
    map: Vec<(String, String)>,
    table: Ghost<Map<Seq<char>, Seq<char>>>,
}

/// `t` is the table the pairs `v` hold: each key occurs once, every pair is
/// in `t`, and `t` has no other key.
pub open spec fn holds_table(v: Seq<(String, String)>, t: Map<Seq<char>, Seq<char>>) -> bool {
    &&& forall|i: int, j: int|
        0 <= i < j < v.len() ==> (#[trigger] v[i]).0@ != (#[trigger] v[j]).0@
    &&& forall|i: int|
        0 <= i < v.len() ==> t.contains_key((#[trigger] v[i]).0@) && t[v[i].0@] == v[i].1@
    &&& forall|k: Seq<char>|
        #[trigger] t.contains_key(k) ==> exists|i: int| 0 <= i < v.len() && v[i].0@ == k
}

impl Strings {
    #[verifier::type_invariant]
    spec fn wf(self) -> bool {
        holds_table(self.map@, self.table@)
    }
}

/// Whether every member of an object is a string.
pub open spec fn all_string_members(m: Seq<(String, Json)>) -> bool {
    forall|i: int| 0 <= i < m.len() ==> (#[trigger] m[i]).1.spec_str() is Some
}

/// The table an object of strings describes: its members read in order, a
/// later member replacing an earlier one of the same key.
pub open spec fn table_of(m: Seq<(String, Json)>) -> Map<Seq<char>, Seq<char>>
    decreases m.len(),
{
    if m.len() == 0 {
        Map::empty()
    } else {
        table_of(m.drop_last()).insert(m.last().0@, m.last().1.spec_str()->0)
    }
}

impl View for Strings {
    type V = Map<Seq<char>, Seq<char>>;

    closed spec fn view(&self) -> Map<Seq<char>, Seq<char>> {
        self.table@
    }
}

/// The index of the pair whose key is `k`, if any.
fn find_key(v: &Vec<(String, String)>, k: &Vec<char>) -> (r: Option<usize>)
    ensures
        match r {
            Some(j) => j < v.len() && v@[j as int].0@ == k@,
            None => forall|i: int| 0 <= i < v.len() ==> (#[trigger] v@[i]).0@ != k@,
        },
{
    let n = v.len();
    let mut i: usize = 0;
    while i < n
        invariant
            n == v.len(),
            i <= n,
            forall|j: int| 0 <= j < i ==> (#[trigger] v@[j]).0@ != k@,
        decreases n - i,
    {
        if str_is(&v[i].0, k) {
            return Some(i);
        }
        i = i + 1;
    }
    None
}

/// The bundled language file for a language: `ja`, `de`, `ko`, `fr`, or
/// `en` for any other.
pub open spec fn spec_bundled_locale(locale: Seq<char>) -> Seq<char> {
    if locale == "ja"@ || locale == "de"@ || locale == "ko"@ || locale == "fr"@ {
        locale
    } else {
        "en"@
    }
}

pub fn bundled_locale(locale: &str) -> (r: String)
    ensures
        r@ == spec_bundled_locale(locale@),
{
    if string_is(locale, "ja") || string_is(locale, "de") || string_is(locale, "ko")
        || string_is(locale, "fr") {
        String::from_str(locale)
    } else {
        String::from_str("en")
    }
}

impl Strings {
    /// The table in a parsed language file: an object whose members are all
    /// strings gives those members (the last of a repeated key wins);
    /// anything else, or no document, gives an empty table.
    pub fn load(doc: Option<&Json>) -> (r: Strings)
        ensures
            r@ == match doc {
                Some(Json::Object(m)) => if all_string_members(m@) {
                    table_of(m@)
                } else {
                    Map::empty()
                },
                _ => Map::empty(),
            },
    {
        let mut map: Vec<(String, String)> = Vec::new();
        let ghost mut table: Map<Seq<char>, Seq<char>> = Map::empty();
        if let Some(Json::Object(m)) = doc {
            let n = m.len();
            let mut i: usize = 0;
            assert(m@.take(0) =~= Seq::<(String, Json)>::empty());
            while i < n
                invariant
                    n == m@.len(),
                    i <= n,
                    match doc {
                        Some(Json::Object(mm)) => mm@ == m@,
                        _ => false,
                    },
                    forall|j: int| 0 <= j < i ==> (#[trigger] m@[j]).1.spec_str() is Some,
                    holds_table(map@, table),
                    table == table_of(m@.take(i as int)),
                decreases n - i,
            {
                assert(m@.take(i + 1).drop_last() =~= m@.take(i as int));
                match m[i].1.as_str() {
                    Some(t) => {
                        let k = chars_of(m[i].0.as_str());
                        let ghost old_map = map@;
                        let ghost old_table = table;
                        proof {
                            table = table.insert(k@, t@);
                        }
                        match find_key(&map, &k) {
                            Some(j) => {
                                map.set(j, (m[i].0.clone(), t.clone()));
                                proof {
                                    assert forall|p: int, q: int|
                                        0 <= p < q < map@.len() implies (#[trigger] map@[p]).0@
                                        != (#[trigger] map@[q]).0@ by {
                                        assert(old_map[p].0@ != old_map[q].0@);
                                    }
                                    assert forall|p: int|
                                        0 <= p < map@.len() implies table.contains_key(
                                        (#[trigger] map@[p]).0@,
                                    ) && table[map@[p].0@] == map@[p].1@ by {
                                        if p != j {
                                            if p < j {
                                                assert(old_map[p].0@ != old_map[j as int].0@);
                                            } else {
                                                assert(old_map[j as int].0@ != old_map[p].0@);
                                            }
                                        }
                                    }
                                    assert forall|key: Seq<char>|
                                        #[trigger] table.contains_key(key) implies exists|p: int|
                                        0 <= p < map@.len() && map@[p].0@ == key by {
                                        if key == k@ {
                                            assert(map@[j as int].0@ == key);
                                        } else {
                                            assert(old_table.contains_key(key));
                                            let p = choose|p: int|
                                                0 <= p < old_map.len() && old_map[p].0@ == key;
                                            assert(map@[p].0@ == key);
                                        }
                                    }
                                }
                            },
                            None => {
                                map.push((m[i].0.clone(), t.clone()));
                                proof {
                                    assert forall|p: int, q: int|
                                        0 <= p < q < map@.len() implies (#[trigger] map@[p]).0@
                                        != (#[trigger] map@[q]).0@ by {
                                        if q < old_map.len() {
                                            assert(old_map[p].0@ != old_map[q].0@);
                                        } else {
                                            assert(old_map[p].0@ != k@);
                                        }
                                    }
                                    assert forall|p: int|
                                        0 <= p < map@.len() implies table.contains_key(
                                        (#[trigger] map@[p]).0@,
                                    ) && table[map@[p].0@] == map@[p].1@ by {
                                        if p < old_map.len() {
                                            assert(old_map[p].0@ != k@);
                                        }
                                    }
                                    assert forall|key: Seq<char>|
                                        #[trigger] table.contains_key(key) implies exists|p: int|
                                        0 <= p < map@.len() && map@[p].0@ == key by {
                                        if key == k@ {
                                            assert(map@[old_map.len() as int].0@ == key);
                                        } else {
                                            assert(old_table.contains_key(key));
                                            let p = choose|p: int|
                                                0 <= p < old_map.len() && old_map[p].0@ == key;
                                            assert(map@[p].0@ == key);
                                        }
                                    }
                                }
                            },
                        }
                    },
                    None => {
                        assert(m@[i as int].1.spec_str() is None);
                        let r = Strings { map: Vec::new(), table: Ghost(Map::empty()) };
                        assert(r@ =~= Map::<Seq<char>, Seq<char>>::empty());
                        return r;
                    },
                }
                i = i + 1;
            }
            assert(m@.take(n as int) =~= m@);
            Strings { map, table: Ghost(table) }
        } else {
            Strings { map, table: Ghost(table) }
        }
    }

    /// The table in a language file's text, as [`Strings::load`] reads the
    /// document it holds; no text, or text that is not JSON, gives an empty
    /// table.
    pub fn load_text(text: Option<&str>) -> (r: Strings)
        ensures
            r@ == match text {
                Some(t) => match parsed(t@) {
                    Some(Json::Object(m)) => if all_string_members(m@) {
                        table_of(m@)
                    } else {
                        Map::empty()
                    },
                    _ => Map::empty(),
                },
                None => Map::empty(),
            },
    {
        match text {
            Some(t) => match parse_json(t) {
                Ok(v) => Strings::load(Some(&v)),
                Err(_) => Strings::load(None),
            },
            None => Strings::load(None),
        }
    }

    /// The string for `key`, or `key` itself when the table lacks it.
    pub fn get<'a>(&'a self, key: &'a str) -> (r: &'a str)
        ensures
            r@ == (if self@.contains_key(key@) {
                self@[key@]
            } else {
                key@
            }),
    {
        proof {
            use_type_invariant(self);
        }
        let k = chars_of(key);
        match find_key(&self.map, &k) {
            Some(j) => self.map[j].1.as_str(),
            None => key,
        }
    }
}


/// Each language the program ships (English, Japanese, German, Korean,
/// French) has its own file; any other falls back to English.
pub proof fn lemma_shipped_languages()
    ensures
        spec_bundled_locale("en"@) == "en"@,
        spec_bundled_locale("ja"@) == "ja"@,
        spec_bundled_locale("de"@) == "de"@,
        spec_bundled_locale("ko"@) == "ko"@,
        spec_bundled_locale("fr"@) == "fr"@,
        forall|l: Seq<char>|
            l != "ja"@ && l != "de"@ && l != "ko"@ && l != "fr"@ ==> #[trigger] spec_bundled_locale(l)
                == "en"@,
{
}


/// The OS locale name's language picks the same file as the language alone:
/// `ja-JP` and `ja` both give `ja`, `es-ES` and `es` both give `en`.
pub proof fn lemma_os_locale_language(lang: Seq<char>, region: Seq<char>)
    requires
        forall|i: int| 0 <= i < lang.len() ==> #[trigger] lang[i] != '-',
    ensures
        spec_locale_from_os(Some(lang + seq!['-'] + region)) == spec_bundled_locale(lang),
        spec_locale_from_os(Some(lang)) == spec_bundled_locale(lang),
{
    let p = crate::text::neither_char('-', '-');
    let s = lang + seq!['-'] + region;
    assert forall|j: int| 0 <= j < lang.len() implies p(#[trigger] s[j]) by {
        assert(s[j] == lang[j]);
    }
    crate::text::lemma_leading_count(s, p, lang.len() as int);
    assert(s.take(lang.len() as int) =~= lang);
    assert forall|j: int| 0 <= j < lang.len() implies p(#[trigger] lang[j]) by {}
    crate::text::lemma_leading_count(lang, p, lang.len() as int);
    assert(lang.take(lang.len() as int) =~= lang);
}

} // verus!
