use vstd::prelude::*;

use crate::text::{char_is_space, chars_of, is_space, str_eq};

verus! {

/// The value bound to `k` by the last entry for `k`, if any.
pub open spec fn attr_lookup(s: Seq<(String, String)>, k: Seq<char>) -> Option<Seq<char>>
    decreases s.len(),
{
    if s.len() == 0 {
        None
    } else if s.last().0@ == k {
        Some(s.last().1@)
    } else {
        attr_lookup(s.drop_last(), k)
    }
}

/// Attribute names mapped to values; each name has at most one value.
#[derive(Debug)]
pub struct AttrMap {
    entries: Vec<(String, String)>,
}

impl View for AttrMap {
    type V = Map<Seq<char>, Seq<char>>;

    closed spec fn view(&self) -> Map<Seq<char>, Seq<char>> {
        Map::new(
            |k: Seq<char>| attr_lookup(self.entries@, k) is Some,
            |k: Seq<char>| attr_lookup(self.entries@, k)->0,
        )
    }
}

impl AttrMap {
    pub fn new() -> (r: AttrMap)
        ensures
            r@ == Map::<Seq<char>, Seq<char>>::empty(),
    {
        let r = AttrMap { entries: Vec::new() };
        assert(r@ =~= Map::<Seq<char>, Seq<char>>::empty());
        r
    }

    /// Binds `name` to `value`, replacing an earlier binding of `name`.
    pub fn insert(&mut self, name: String, value: String)
        ensures
            final(self)@ == old(self)@.insert(name@, value@),
    {
        let ghost k = name@;
        let ghost v = value@;
        self.entries.push((name, value));
        assert(self@ =~= old(self)@.insert(k, v)) by {
            assert(self.entries@.drop_last() == old(self).entries@);
        }
    }

    /// The value bound to `name`.
    pub fn get(&self, name: &str) -> (r: Option<&String>)
        ensures
            r is Some <==> self@.contains_key(name@),
            r is Some ==> r->0@ == self@[name@],
    {
        let mut i: usize = self.entries.len();
        assert(self.entries@.take(i as int) =~= self.entries@);
        while i > 0
            invariant
                i <= self.entries.len(),
                attr_lookup(self.entries@, name@) == attr_lookup(
                    self.entries@.take(i as int),
                    name@,
                ),
            decreases i,
        {
            assert(self.entries@.take(i as int).drop_last() == self.entries@.take(i - 1));
            if str_eq(self.entries[i - 1].0.as_str(), name) {
                return Some(&self.entries[i - 1].1);
            }
            i = i - 1;
        }
        None
    }
}

/// Whether `t` occurs in `s` as one of its whitespace-separated tokens.
pub open spec fn has_token(s: Seq<char>, t: Seq<char>) -> bool {
    exists|i: int| token_at(s, t, i)
}

/// `t` is a whole token of `s` starting at position `i`.
pub open spec fn token_at(s: Seq<char>, t: Seq<char>, i: int) -> bool {
    &&& t.len() > 0
    &&& forall|j: int| 0 <= j < t.len() ==> !is_space(#[trigger] t[j])
    &&& 0 <= i
    &&& i + t.len() <= s.len()
    &&& s.subrange(i, i + t.len()) == t
    &&& (i == 0 || is_space(s[i - 1]))
    &&& (i + t.len() == s.len() || is_space(s[i + t.len()]))
}

/// Whether the token `t` occurs in the whitespace-separated list `s`.
pub fn contains_token(s: &str, t: &str) -> (r: bool)
    ensures
        r == has_token(s@, t@),
{
    let sv = chars_of(s);
    let tv = chars_of(t);
    let n = sv.len();
    let m = tv.len();
    if m == 0 || m > n {
        return false;
    }
    let mut j: usize = 0;
    while j < m
        invariant
            tv@ == t@,
            m == tv.len(),
            j <= m,
            forall|k: int| 0 <= k < j ==> !is_space(#[trigger] tv@[k]),
        decreases m - j,
    {
        if char_is_space(tv[j]) {
            assert(forall|i: int| !token_at(s@, t@, i));
            return false;
        }
        j = j + 1;
    }
    let mut i: usize = 0;
    while i <= n - m
        invariant
            sv@ == s@,
            tv@ == t@,
            n == sv.len(),
            m == tv.len(),
            0 < m <= n,
            forall|k: int| 0 <= k < m ==> !is_space(#[trigger] tv@[k]),
            forall|p: int| 0 <= p < i ==> !token_at(s@, t@, p),
        decreases n - m + 1 - i,
    {
        let starts = i == 0 || char_is_space(sv[i - 1]);
        let ends = i + m == n || char_is_space(sv[i + m]);
        if starts && ends {
            let mut k: usize = 0;
            let mut same = true;
            while k < m
                invariant
                    sv@ == s@,
                    tv@ == t@,
                    n == sv.len(),
                    m == tv.len(),
                    i + m <= n,
                    k <= m,
                    same == forall|q: int| 0 <= q < k ==> sv@[i + q] == tv@[q],
                decreases m - k,
            {
                same = same && sv[i + k] == tv[k];
                k = k + 1;
            }
            if same {
                assert(s@.subrange(i as int, i + m) =~= t@);
                assert(token_at(s@, t@, i as int));
                return true;
            }
            assert(!token_at(s@, t@, i as int)) by {
                if token_at(s@, t@, i as int) {
                    assert forall|q: int| 0 <= q < m implies sv@[i + q] == tv@[q] by {
                        assert(s@.subrange(i as int, i + m)[q] == sv@[i + q]);
                    }
                }
            }
        }
        i = i + 1;
    }
    false
}

/// Element data: a tag name and its attributes.
#[derive(Debug)]
pub struct ElementData {
    pub tag_name: String,
    pub attrs: AttrMap,
}

impl ElementData {
    /// The value of the `id` attribute.
    pub fn id(&self) -> (r: Option<&String>)
        ensures
            r is Some <==> self.attrs@.contains_key("id"@),
            r is Some ==> r->0@ == self.attrs@["id"@],
    {
        self.attrs.get("id")
    }

    /// Whether `class` is one of the tokens of the `class` attribute.
    pub open spec fn spec_has_class(&self, class: Seq<char>) -> bool {
        self.attrs@.contains_key("class"@) && has_token(self.attrs@["class"@], class)
    }

    pub fn has_class(&self, class: &str) -> (r: bool)
        ensures
            r == self.spec_has_class(class@),
    {
        match self.attrs.get("class") {
            Some(list) => contains_token(list.as_str(), class),
            None => false,
        }
    }
}

#[derive(Debug)]
pub enum NodeType {
    Text(String),
    Element(ElementData),
    Comment(String),
}

/// A document node and its children, in document order.
#[derive(Debug)]
pub struct Node {
    pub children: Vec<Node>,
    pub node_type: NodeType,
}

pub fn text(data: String) -> (r: Node)
    ensures
        r.children@.len() == 0,
        r.node_type == NodeType::Text(data),
{
    Node { children: Vec::new(), node_type: NodeType::Text(data) }
}

pub fn elem(tag_name: String, attrs: AttrMap, children: Vec<Node>) -> (r: Node)
    ensures
        r.children == children,
        r.node_type == NodeType::Element(ElementData { tag_name, attrs }),
{
    Node { children, node_type: NodeType::Element(ElementData { tag_name, attrs }) }
}

pub fn comment(data: String) -> (r: Node)
    ensures
        r.children@.len() == 0,
        r.node_type == NodeType::Comment(data),
{
    Node { children: Vec::new(), node_type: NodeType::Comment(data) }
}

} // verus!
