use vstd::prelude::*;

use crate::css::Value;
use crate::text::str_eq;

verus! {

/// The map that a list of bindings denotes: a later binding of a name
/// replaces an earlier one.
pub open spec fn prop_map(s: Seq<(String, Value)>) -> Map<Seq<char>, Value>
    decreases s.len(),
{
    if s.len() == 0 {
        Map::empty()
    } else {
        prop_map(s.drop_last()).insert(s.last().0@, s.last().1)
    }
}

proof fn lemma_prop_map_dom(s: Seq<(String, Value)>, k: Seq<char>)
    ensures
        prop_map(s).contains_key(k) <==> exists|i: int| 0 <= i < s.len() && #[trigger] s[i].0@ == k,
    decreases s.len(),
{
    if s.len() > 0 {
        lemma_prop_map_dom(s.drop_last(), k);
        if prop_map(s.drop_last()).contains_key(k) {
            let i = choose|i: int| 0 <= i < s.drop_last().len() && #[trigger] s.drop_last()[i].0@ == k;
            assert(s[i].0@ == k);
        }
        if exists|i: int| 0 <= i < s.len() && #[trigger] s[i].0@ == k {
            let i = choose|i: int| 0 <= i < s.len() && #[trigger] s[i].0@ == k;
            if i < s.len() - 1 {
                assert(s.drop_last()[i].0@ == k);
            }
        }
    }
}

/// The names of the properties that a node takes from its parent when its
/// own declarations do not set them.
pub open spec fn inherited_property_names() -> Seq<Seq<char>> {
    seq![
        "azimuth"@, "border-collapse"@, "border-spacing"@, "caption-side"@, "color"@,
        "cursor"@, "direction"@, "elevation"@, "empty-cells"@, "font-family"@,
        "font-size"@, "font-style"@, "font-variant"@, "font-weight"@, "font"@,
        "letter-spacing"@, "line-height"@, "list-style-image"@, "list-style-position"@,
        "list-style-type"@, "list-style"@, "orphans"@, "pitch-range"@, "pitch"@,
        "quotes"@, "richness"@, "speak-header"@, "speak-numeral"@, "speak-punctuation"@,
        "speak"@, "speech-rate"@, "stress"@, "text-align"@, "text-indent"@,
        "text-transform"@, "visibility"@, "voice-family"@, "volume"@, "white-space"@,
        "widows"@, "word-spacing"@,
    ]
}

pub open spec fn is_inherited(name: Seq<char>) -> bool {
    inherited_property_names().contains(name)
}

/// Whether `name` is on the inherited-property allow-list.
pub fn is_inherited_property(name: &str) -> (r: bool)
    ensures
        r == is_inherited(name@),
{
    let names: Vec<&str> = vec![
        "azimuth", "border-collapse", "border-spacing", "caption-side", "color",
        "cursor", "direction", "elevation", "empty-cells", "font-family",
        "font-size", "font-style", "font-variant", "font-weight", "font",
        "letter-spacing", "line-height", "list-style-image", "list-style-position",
        "list-style-type", "list-style", "orphans", "pitch-range", "pitch",
        "quotes", "richness", "speak-header", "speak-numeral", "speak-punctuation",
        "speak", "speech-rate", "stress", "text-align", "text-indent",
        "text-transform", "visibility", "voice-family", "volume", "white-space",
        "widows", "word-spacing",
    ];
    let ghost list = inherited_property_names();
    assert(names@.map_values(|s: &str| s@) =~= list);
    let mut i: usize = 0;
    while i < names.len()
        invariant
            names@.map_values(|s: &str| s@) == list,
            list == inherited_property_names(),
            i <= names.len(),
            forall|j: int| 0 <= j < i ==> list[j] != name@,
        decreases names.len() - i,
    {
        assert(names@.map_values(|s: &str| s@)[i as int] == names@[i as int]@);
        if str_eq(names[i], name) {
            assert(list[i as int] == name@);

            return true;
        }
        i = i + 1;
    }
    false
}

/// Property names mapped to values: the computed style of one node.
#[derive(Debug)]
pub struct PropertyMap {
    entries: Vec<(String, Value)>,
}

impl View for PropertyMap {
    type V = Map<Seq<char>, Value>;

    closed spec fn view(&self) -> Map<Seq<char>, Value> {
        prop_map(self.entries@)
    }
}

/// `own`, completed by the parent's values of the inherited properties that
/// `own` does not set.
pub open spec fn with_inherited(own: Map<Seq<char>, Value>, parent: Map<Seq<char>, Value>) -> Map<
    Seq<char>,
    Value,
> {
    Map::new(
        |k: Seq<char>| own.contains_key(k) || (is_inherited(k) && parent.contains_key(k)),
        |k: Seq<char>|
            if own.contains_key(k) {
                own[k]
            } else {
                parent[k]
            },
    )
}

pub open spec fn value_of(m: Map<Seq<char>, Value>, name: Seq<char>) -> Option<Value> {
    if m.contains_key(name) {
        Some(m[name])
    } else {
        None
    }
}

/// The value of `name`, else that of `fallback_name`, else `default`.
pub open spec fn lookup_of(
    m: Map<Seq<char>, Value>,
    name: Seq<char>,
    fallback_name: Seq<char>,
    default: Value,
) -> Value {
    if m.contains_key(name) {
        m[name]
    } else if m.contains_key(fallback_name) {
        m[fallback_name]
    } else {
        default
    }
}

impl PropertyMap {
    pub fn new() -> (r: PropertyMap)
        ensures
            r@ == Map::<Seq<char>, Value>::empty(),
    {
        PropertyMap { entries: Vec::new() }
    }

    /// Binds `name` to `value`, replacing an earlier binding of `name`.
    pub fn insert(&mut self, name: String, value: Value)
        ensures
            final(self)@ == old(self)@.insert(name@, value),
    {
        self.entries.push((name, value));
        assert(self.entries@.drop_last() == old(self).entries@);
    }

    /// The value bound to `name`.
    pub fn get(&self, name: &str) -> (r: Option<&Value>)
        ensures
            r is Some <==> self@.contains_key(name@),
            r is Some ==> *r->0 == self@[name@],
    {
        let mut i: usize = self.entries.len();
        assert(self.entries@.take(i as int) =~= self.entries@);
        while i > 0
            invariant
                i <= self.entries.len(),
                self@.contains_key(name@) == prop_map(self.entries@.take(i as int)).contains_key(
                    name@,
                ),
                self@.contains_key(name@) ==> self@[name@] == prop_map(
                    self.entries@.take(i as int),
                )[name@],
            decreases i,
        {
            assert(self.entries@.take(i as int).drop_last() == self.entries@.take(i - 1));
            if str_eq(self.entries[i - 1].0.as_str(), name) {
                return Some(&self.entries[i - 1].1);
            }
            i = i - 1;
        }
        None
    }

    /// A copy of the value bound to `name`.
    pub fn value(&self, name: &str) -> (r: Option<Value>)
        ensures
            r == value_of(self@, name@),
    {
        match self.get(name) {
            Some(v) => Some(v.clone()),
            None => None,
        }
    }

    /// The value of `name`, else of `fallback_name`, else `default`.
    pub fn lookup(&self, name: &str, fallback_name: &str, default: &Value) -> (r: Value)
        ensures
            r == lookup_of(self@, name@, fallback_name@, *default),
    {
        match self.get(name) {
            Some(v) => v.clone(),
            None => match self.get(fallback_name) {
                Some(v) => v.clone(),
                None => default.clone(),
            },
        }
    }

    /// Adds, for each inherited property that this map does not set, the
    /// parent's value of it.
    pub fn inherit_from(&mut self, parent: &PropertyMap)
        ensures
            final(self)@ == with_inherited(old(self)@, parent@),
    {
        let ghost own = self@;
        let ghost ps = parent.entries@;
        let mut j: usize = 0;
        while j < parent.entries.len()
            invariant
                ps == parent.entries@,
                j <= ps.len(),
                self@ =~= Map::new(
                    |k: Seq<char>|
                        own.contains_key(k) || (is_inherited(k) && exists|i: int|
                            0 <= i < j && #[trigger] ps[i].0@ == k),
                    |k: Seq<char>|
                        if own.contains_key(k) {
                            own[k]
                        } else {
                            parent@[k]
                        },
                ),
            decreases ps.len() - j,
        {
            let name = &parent.entries[j].0;
            proof {
                lemma_prop_map_dom(ps, name@);
            }
            if is_inherited_property(name.as_str()) && self.get(name.as_str()).is_none() {
                let v = parent.get(name.as_str());
                let value = v.unwrap().clone();
                self.insert(name.clone(), value);
            }
            j = j + 1;
        }
        assert forall|k: Seq<char>| parent@.contains_key(k) <==> exists|i: int|
            0 <= i < ps.len() && #[trigger] ps[i].0@ == k by {
            lemma_prop_map_dom(ps, k);
        }
        assert(self@ =~= with_inherited(own, parent@));
    }
}

} // verus!
