//! A parser for a small subset of HTML: balanced tags, quoted attribute
//! values, text, and comments `<!-- .. -->` whose text holds no `-`.

use vstd::prelude::*;

use crate::dom::{comment, elem, text, AttrMap, Node, NodeType};
use crate::text::{char_is_whitespace, chars_of, is_whitespace, substring};

verus! {

/// The character classes that the parser consumes runs of.
#[derive(Clone, Copy)]
enum CharTest {
    Whitespace,
    NameChar,
    NotLt,
    NotDash,
    Not(char),
}

spec fn passes(t: CharTest, c: char) -> bool {
    match t {
        CharTest::Whitespace => is_whitespace(c),
        CharTest::NameChar => ('a' <= c && c <= 'z') || ('A' <= c && c <= 'Z') || ('0' <= c && c
            <= '9'),
        CharTest::NotLt => c != '<',
        CharTest::NotDash => c != '-',
        CharTest::Not(q) => c != q,
    }
}

fn test_char(t: CharTest, c: char) -> (r: bool)
    ensures
        r == passes(t, c),
{
    match t {
        CharTest::Whitespace => char_is_whitespace(c),
        CharTest::NameChar => ('a' <= c && c <= 'z') || ('A' <= c && c <= 'Z') || ('0' <= c && c
            <= '9'),
        CharTest::NotLt => c != '<',
        CharTest::NotDash => c != '-',
        CharTest::Not(q) => c != q,
    }
}

struct Parser {
    pos: usize,
    input: Vec<char>,
    source: String,
}

impl Parser {
    spec fn wf(&self) -> bool {
        self.pos <= self.input@.len() <= usize::MAX && self.input@ == self.source@
    }

    /// Only the position moves, and never backwards.
    spec fn advanced(&self, from: &Parser) -> bool {
        &&& self.wf()
        &&& self.input == from.input
        &&& self.source == from.source
        &&& from.pos <= self.pos
    }

    spec fn at(&self, s: Seq<char>) -> bool {
        self.pos + s.len() <= self.input@.len() && self.input@.subrange(
            self.pos as int,
            self.pos + s.len(),
        ) == s
    }

    // Read the next character without consuming it.
    fn next_char(&self) -> (r: char)
        requires
            self.wf(),
            self.pos < self.input@.len(),
        ensures
            r == self.input@[self.pos as int],
    {
        self.input[self.pos]
    }

    // Does the input at the current position start with `s`?
    fn starts_with(&self, s: &str) -> (r: bool)
        requires
            self.wf(),
        ensures
            r == self.at(s@),
    {
        let t = chars_of(s);
        if t.len() > self.input.len() - self.pos {
            return false;
        }
        let mut i: usize = 0;
        while i < t.len()
            invariant
                self.wf(),
                t@ == s@,
                self.pos + t@.len() <= self.input@.len(),
                i <= t@.len(),
                forall|j: int| 0 <= j < i ==> self.input@[self.pos + j] == t@[j],
            decreases t.len() - i,
        {
            if self.input[self.pos + i] != t[i] {
                assert(self.input@.subrange(self.pos as int, self.pos + s@.len())[i as int]
                    != s@[i as int]);
                return false;
            }
            i = i + 1;
        }
        assert(self.input@.subrange(self.pos as int, self.pos + s@.len()) =~= s@);
        true
    }

    // If the exact string `s` is found at the current position, consume it.
    fn expect(&mut self, s: &str) -> (r: bool)
        requires
            old(self).wf(),
        ensures
            final(self).advanced(old(self)),
            r == old(self).at(s@),
            r ==> final(self).pos == old(self).pos + s@.len(),
            !r ==> final(self).pos == old(self).pos,
    {
        if self.starts_with(s) {
            self.pos = self.pos + s.unicode_len();
            true
        } else {
            false
        }
    }

    // Has all input been consumed?
    fn eof(&self) -> (r: bool)
        requires
            self.wf(),
        ensures
            r == (self.pos >= self.input@.len()),
    {
        self.pos >= self.input.len()
    }

    // Consume the character at the current position.
    fn consume_char(&mut self) -> (r: char)
        requires
            old(self).wf(),
            old(self).pos < old(self).input@.len(),
        ensures
            final(self).advanced(old(self)),
            final(self).pos == old(self).pos + 1,
            r == old(self).input@[old(self).pos as int],
    {
        let c = self.next_char();
        self.pos = self.pos + 1;
        c
    }

    // Consume the longest run of characters that pass `test`.
    fn consume_while(&mut self, test: CharTest) -> (r: String)
        requires
            old(self).wf(),
        ensures
            final(self).advanced(old(self)),
            r@ == old(self).input@.subrange(old(self).pos as int, final(self).pos as int),
            forall|j: int|
                old(self).pos <= j < final(self).pos ==> passes(test, #[trigger] old(self).input@[j]),
            final(self).pos == old(self).input@.len() || !passes(
                test,
                old(self).input@[final(self).pos as int],
            ),
    {
        let start = self.pos;
        while !self.eof() && test_char(test, self.next_char())
            invariant
                self.advanced(old(self)),
                start == old(self).pos,
                forall|j: int| start <= j < self.pos ==> passes(test, #[trigger] self.input@[j]),
            decreases self.input@.len() - self.pos,
        {
            self.pos = self.pos + 1;
        }
        substring(&self.source, start, self.pos)
    }

    // Consume and discard whitespace.
    fn consume_whitespace(&mut self)
        requires
            old(self).wf(),
        ensures
            final(self).advanced(old(self)),
            final(self).pos == old(self).input@.len() || !is_whitespace(
                old(self).input@[final(self).pos as int],
            ),
    {
        self.consume_while(CharTest::Whitespace);
    }

    // A tag or attribute name: ASCII letters and digits.
    fn parse_name(&mut self) -> (r: String)
        requires
            old(self).wf(),
        ensures
            final(self).advanced(old(self)),
            r@ == old(self).input@.subrange(old(self).pos as int, final(self).pos as int),
    {
        self.consume_while(CharTest::NameChar)
    }

    // A single node.
    fn parse_node(&mut self) -> (r: Option<Node>)
        requires
            old(self).wf(),
            old(self).pos < old(self).input@.len(),
        ensures
            final(self).advanced(old(self)),
            final(self).pos > old(self).pos,
        decreases old(self).input@.len() - old(self).pos, 1int,
    {
        proof {
            reveal_strlit("<");
        }
        if self.starts_with("<") {
            self.parse_element()
        } else {
            proof {
                if self.input@[self.pos as int] == '<' {
                    assert(self.input@.subrange(self.pos as int, self.pos + 1) =~= "<"@);
                }
            }
            Some(self.parse_text())
        }
    }

    // A text node: everything up to the next `<`.
    fn parse_text(&mut self) -> (r: Node)
        requires
            old(self).wf(),
        ensures
            final(self).advanced(old(self)),
            r.children@.len() == 0,
            r.node_type matches NodeType::Text(t) && t@ == old(self).input@.subrange(
                old(self).pos as int,
                final(self).pos as int,
            ),
            !old(self).input@.subrange(old(self).pos as int, final(self).pos as int).contains('<'),
            final(self).pos == old(self).input@.len() || old(self).input@[final(self).pos as int]
                == '<',
            old(self).pos < old(self).input@.len() && old(self).input@[old(self).pos as int] != '<'
                ==> final(self).pos > old(self).pos,
    {
        text(self.consume_while(CharTest::NotLt))
    }

    // A closing tag `</name>` at the current position?
    fn at_closing_tag(&self, name: &String) -> (r: bool)
        requires
            self.wf(),
        ensures
            r ==> self.pos + name@.len() + 3 <= self.input@.len(),
    {
        let n = name.as_str().unicode_len();
        if !self.starts_with("</") || self.input.len() - self.pos < 3 || self.input.len() - self.pos
            - 3 < n {
            return false;
        }
        let mut i: usize = 0;
        while i < n
            invariant
                self.wf(),
                n == name@.len(),
                self.pos + n + 3 <= self.input@.len(),
                i <= n,
            decreases n - i,
        {
            if self.input[self.pos + 2 + i] != name.as_str().get_char(i) {
                return false;
            }
            i = i + 1;
        }
        self.input[self.pos + 2 + n] == '>'
    }

    // An element: opening tag, contents and closing tag; or a comment.
    fn parse_element(&mut self) -> (r: Option<Node>)
        requires
            old(self).wf(),
            old(self).at("<"@),
        ensures
            final(self).advanced(old(self)),
            final(self).pos > old(self).pos,
        decreases old(self).input@.len() - old(self).pos, 0int,
    {
        proof {
            reveal_strlit("<");
        }
        self.expect("<");
        if self.starts_with("!--") {
            return self.parse_comment();
        }
        let tag_name = self.parse_name();
        let attrs = self.parse_attributes();
        if !self.expect(">") {
            return None;
        }
        let children = self.parse_nodes();
        if !self.at_closing_tag(&tag_name) {
            return None;
        }
        self.pos = self.pos + tag_name.as_str().unicode_len() + 3;
        Some(elem(tag_name, attrs, children))
    }

    // Attributes: `name="value"` pairs separated by whitespace, up to `>`.
    fn parse_attributes(&mut self) -> (r: AttrMap)
        requires
            old(self).wf(),
        ensures
            final(self).advanced(old(self)),
    {
        let mut attributes = AttrMap::new();
        loop
            invariant
                self.advanced(old(self)),
            decreases self.input@.len() - self.pos,
        {
            self.consume_whitespace();
            if self.eof() || self.next_char() == '>' {
                break;
            }
            let start = self.pos;
            if let Some((name, value)) = self.parse_attr() {
                attributes.insert(name, value);
            }
            if self.pos == start {
                break;
            }
        }
        attributes
    }

    // A single `name="value"` attribute.
    fn parse_attr(&mut self) -> (r: Option<(String, String)>)
        requires
            old(self).wf(),
        ensures
            final(self).advanced(old(self)),
    {
        let name = self.parse_name();
        if !self.expect("=") {
            return None;
        }
        match self.parse_attr_value() {
            Some(value) => Some((name, value)),
            None => None,
        }
    }

    // A value in single or double quotes.
    fn parse_attr_value(&mut self) -> (r: Option<String>)
        requires
            old(self).wf(),
        ensures
            final(self).advanced(old(self)),
            r is Some ==> {
                let q = old(self).input@[old(self).pos as int];
                &&& q == '"' || q == '\''
                &&& final(self).pos >= old(self).pos + 2
                &&& old(self).input@[final(self).pos - 1] == q
                &&& r->0@ == old(self).input@.subrange(old(self).pos + 1, final(self).pos - 1)
                &&& !r->0@.contains(q)
            },
    {
        if self.eof() {
            return None;
        }
        let open_quote = self.consume_char();
        if open_quote != '"' && open_quote != '\'' {
            return None;
        }
        let value = self.consume_while(CharTest::Not(open_quote));
        if self.eof() {
            return None;
        }
        self.consume_char();
        Some(value)
    }

    // Sibling nodes, up to a closing tag or the end of the input.
    fn parse_nodes(&mut self) -> (r: Vec<Node>)
        requires
            old(self).wf(),
        ensures
            final(self).advanced(old(self)),
        decreases old(self).input@.len() - old(self).pos, 2int,
    {
        let mut nodes: Vec<Node> = Vec::new();
        loop
            invariant
                self.advanced(old(self)),
            decreases self.input@.len() - self.pos,
        {
            self.consume_whitespace();
            if self.eof() || self.starts_with("</") {
                break;
            }
            if let Some(node) = self.parse_node() {
                nodes.push(node);
            }
        }
        nodes
    }

    // A comment `!-- text -->`, after its `<`.
    fn parse_comment(&mut self) -> (r: Option<Node>)
        requires
            old(self).wf(),
        ensures
            final(self).advanced(old(self)),
    {
        if !self.expect("!--") {
            return None;
        }
        let data = self.consume_while(CharTest::NotDash);
        if !self.expect("-->") {
            return None;
        }
        Some(comment(data))
    }
}

/// Parses an HTML document. A single top-level node is the root; several
/// are wrapped in an `html` element.
pub fn parse(source: String) -> Node {
    let input = chars_of(source.as_str());
    assert(input.len() <= usize::MAX);
    let mut parser = Parser { pos: 0, input, source };
    let mut nodes = parser.parse_nodes();
    if nodes.len() == 1 {
        nodes.remove(0)
    } else {
        elem("html".to_owned(), AttrMap::new(), nodes)
    }
}

} // verus!
