use vstd::prelude::*;

use crate::text::{char_is_whitespace, chars_of, is_whitespace, substring};

verus! {

/// Where a stylesheet comes from.
#[derive(Debug, Clone, Copy, PartialEq, Eq, Structural)]
pub enum CSSOrigin {
    Author,
    User,
}

/// Length units understood by the value model; only `Px` converts to pixels.
#[derive(Debug, Clone, Copy, PartialEq, Eq, Structural)]
pub enum Unit {
    Px,
    Em,
    Rem,
}

#[derive(Debug, Clone, Copy, PartialEq, Eq, Structural)]
pub struct ColorRGBA {
    pub r: u8,
    pub g: u8,
    pub b: u8,
    pub a: u8,
}

/// A resolved property value.
#[derive(Debug, PartialEq)]
pub enum Value {
    Color(ColorRGBA),
    Keyword(String),
    Length(i64, Unit),
}

impl Clone for Value {
    fn clone(&self) -> (r: Self)
        ensures
            r == *self,
    {
        match self {
            Value::Color(c) => Value::Color(*c),
            Value::Keyword(k) => Value::Keyword(k.clone()),
            Value::Length(n, u) => Value::Length(*n, *u),
        }
    }
}

impl Value {
    /// The value in pixels: a `px` length gives its number, anything else 0.
    pub open spec fn px(self) -> int {
        match self {
            Value::Length(n, Unit::Px) => n as int,
            _ => 0,
        }
    }

    pub fn to_px(&self) -> (r: i64)
        ensures
            r == self.px(),
    {
        match self {
            Value::Length(n, Unit::Px) => *n,
            _ => 0,
        }
    }
}

/// A property declaration `name: value [!important]`.
#[derive(Debug)]
pub struct Declaration {
    pub name: String,
    pub value: Value,
    pub origin: CSSOrigin,
    pub is_important: bool,
}

impl Clone for Declaration {
    fn clone(&self) -> (r: Self)
        ensures
            r == *self,
    {
        Declaration {
            name: self.name.clone(),
            value: self.value.clone(),
            origin: self.origin,
            is_important: self.is_important,
        }
    }
}

/// `tag#id.class1.class2`; every part that is present must match.
#[derive(Debug)]
pub struct SimpleSelector {
    pub tag_name: Option<String>,
    pub id: Option<String>,
    pub class: Vec<String>,
}

#[derive(Debug)]
pub enum Selector {
    Simple(SimpleSelector),
}

/// (number of ids, number of classes, 1 if a tag name is present else 0).
pub type Specificity = (usize, usize, usize);

/// Lexicographic order on specificities: `a` ranks strictly below `b`.
pub open spec fn specificity_lt(a: Specificity, b: Specificity) -> bool {
    a.0 < b.0 || (a.0 == b.0 && (a.1 < b.1 || (a.1 == b.1 && a.2 < b.2)))
}

impl Selector {
    pub open spec fn spec_specificity(&self) -> Specificity {
        match self {
            Selector::Simple(s) => (
                if s.id is Some { 1 } else { 0 },
                s.class@.len() as usize,
                if s.tag_name is Some { 1 } else { 0 },
            ),
        }
    }

    pub fn specificity(&self) -> (r: Specificity)
        ensures
            r == self.spec_specificity(),
    {
        match self {
            Selector::Simple(s) => {
                let a: usize = if s.id.is_some() { 1 } else { 0 };
                let b: usize = s.class.len();
                let c: usize = if s.tag_name.is_some() { 1 } else { 0 };
                (a, b, c)
            },
        }
    }
}

/// Selectors with more ids outrank those with fewer, whatever their class
/// and tag counts; equal id counts are ordered by class count, then by the
/// presence of a tag name.
pub proof fn lemma_specificity_ordering(s1: Selector, s2: Selector)
    ensures
        s1.spec_specificity().0 > s2.spec_specificity().0 ==> specificity_lt(
            s2.spec_specificity(),
            s1.spec_specificity(),
        ),
        s1.spec_specificity().0 == s2.spec_specificity().0 && s1.spec_specificity().1
            > s2.spec_specificity().1 ==> specificity_lt(
            s2.spec_specificity(),
            s1.spec_specificity(),
        ),
        s1.spec_specificity().0 == s2.spec_specificity().0 && s1.spec_specificity().1
            == s2.spec_specificity().1 ==> (specificity_lt(
            s2.spec_specificity(),
            s1.spec_specificity(),
        ) <==> s1.spec_specificity().2 > s2.spec_specificity().2),
{
}

/// A rule: a selector list and the declarations it applies.
#[derive(Debug)]
pub struct Rule {
    pub selectors: Vec<Selector>,
    pub declarations: Vec<Declaration>,
    pub origin: CSSOrigin,
}

#[derive(Debug)]
pub struct StylesSheet {
    pub rules: Vec<Rule>,
    pub origin: CSSOrigin,
}

/// Every selector list is sorted by ascending specificity, and every rule
/// and declaration carries the stylesheet's origin.
pub open spec fn sheet_well_formed(sheet: StylesSheet) -> bool {
    forall|i: int|
        0 <= i < sheet.rules@.len() ==> {
            let rule = #[trigger] sheet.rules@[i];
            &&& rule.origin == sheet.origin
            &&& selectors_sorted(rule.selectors@)
            &&& forall|k: int|
                0 <= k < rule.declarations@.len() ==> (#[trigger] rule.declarations@[k]).origin
                    == sheet.origin
        }
}

pub open spec fn selectors_sorted(s: Seq<Selector>) -> bool {
    forall|i: int, j: int|
        0 <= i < j < s.len() ==> !specificity_lt(
            #[trigger] s[j].spec_specificity(),
            #[trigger] s[i].spec_specificity(),
        )
}

pub open spec fn is_identifier_char(c: char) -> bool {
    ('a' <= c && c <= 'z') || ('A' <= c && c <= 'Z') || ('0' <= c && c <= '9') || c == '-' || c
        == '_'
}

fn valid_identifier_char(c: char) -> (r: bool)
    ensures
        r == is_identifier_char(c),
{
    ('a' <= c && c <= 'z') || ('A' <= c && c <= 'Z') || ('0' <= c && c <= '9') || c == '-' || c
        == '_'
}

/// The value of a hexadecimal digit.
pub open spec fn hex_value(c: char) -> Option<int> {
    if '0' <= c && c <= '9' {
        Some(c as int - '0' as int)
    } else if 'a' <= c && c <= 'f' {
        Some(c as int - 'a' as int + 10)
    } else if 'A' <= c && c <= 'F' {
        Some(c as int - 'A' as int + 10)
    } else {
        None
    }
}

fn hex_digit(c: char) -> (r: Option<u8>)
    ensures
        r matches Some(v) ==> hex_value(c) == Some(v as int),
        r is None ==> hex_value(c) is None,
{
    if '0' <= c && c <= '9' {
        Some((c as u32 - '0' as u32) as u8)
    } else if 'a' <= c && c <= 'f' {
        Some((c as u32 - 'a' as u32 + 10) as u8)
    } else if 'A' <= c && c <= 'F' {
        Some((c as u32 - 'A' as u32 + 10) as u8)
    } else {
        None
    }
}

/// The value of a run of decimal digits.
pub open spec fn decimal_value(s: Seq<char>) -> int
    decreases s.len(),
{
    if s.len() == 0 {
        0
    } else {
        decimal_value(s.drop_last()) * 10 + (s.last() as int - '0' as int)
    }
}

/// The characters of `s` before its first `.`.
pub open spec fn before_dot(s: Seq<char>) -> Seq<char>
    decreases s.len(),
{
    if s.len() == 0 || s[0] == '.' {
        Seq::empty()
    } else {
        seq![s[0]] + before_dot(s.drop_first())
    }
}

proof fn lemma_before_dot(s: Seq<char>, i: int)
    requires
        0 <= i <= s.len(),
        forall|j: int| 0 <= j < i ==> s[j] != '.',
        i == s.len() || s[i] == '.',
    ensures
        before_dot(s) == s.take(i),
    decreases i,
{
    if i > 0 {
        lemma_before_dot(s.drop_first(), i - 1);
        assert(s.take(i) =~= seq![s[0]] + s.drop_first().take(i - 1));
    } else {
        assert(s.take(0) =~= Seq::<char>::empty());
    }
}

pub open spec fn ascii_lower(c: char) -> char {
    if 'A' <= c && c <= 'Z' {
        ((c as u32) + 32) as u8 as char
    } else {
        c
    }
}

/// The unit that a lower-case word names.
pub open spec fn unit_named(s: Seq<char>) -> Option<Unit> {
    if s == seq!['p', 'x'] {
        Some(Unit::Px)
    } else if s == seq!['e', 'm'] {
        Some(Unit::Em)
    } else if s == seq!['r', 'e', 'm'] {
        Some(Unit::Rem)
    } else {
        None
    }
}

/// The characters that the scanner consumes runs of.
#[derive(Clone, Copy)]
enum CharTest {
    Whitespace,
    Identifier,
    Number,
    NotEndOfDeclaration,
}

spec fn passes(t: CharTest, c: char) -> bool {
    match t {
        CharTest::Whitespace => is_whitespace(c),
        CharTest::Identifier => is_identifier_char(c),
        CharTest::Number => ('0' <= c && c <= '9') || c == '.',
        CharTest::NotEndOfDeclaration => c != ';' && c != '}',
    }
}

fn test_char(t: CharTest, c: char) -> (r: bool)
    ensures
        r == passes(t, c),
{
    match t {
        CharTest::Whitespace => char_is_whitespace(c),
        CharTest::Identifier => valid_identifier_char(c),
        CharTest::Number => ('0' <= c && c <= '9') || c == '.',
        CharTest::NotEndOfDeclaration => c != ';' && c != '}',
    }
}

fn specificity_less(a: Specificity, b: Specificity) -> (r: bool)
    ensures
        r == specificity_lt(a, b),
{
    a.0 < b.0 || (a.0 == b.0 && (a.1 < b.1 || (a.1 == b.1 && a.2 < b.2)))
}

/// Inserts `s` after every selector of lower or equal specificity.
#[verifier::rlimit(40)]
fn insert_sorted(selectors: &mut Vec<Selector>, s: Selector)
    requires
        selectors_sorted(old(selectors)@),
    ensures
        selectors_sorted(final(selectors)@),
        final(selectors)@.len() == old(selectors)@.len() + 1,
{
    let key = s.specificity();
    let mut i: usize = selectors.len();
    while i > 0 && specificity_less(key, selectors[i - 1].specificity())
        invariant
            i <= selectors@.len(),
            selectors@ == old(selectors)@,
            key == s.spec_specificity(),
            forall|j: int| i <= j < selectors@.len() ==> specificity_lt(
                key,
                #[trigger] selectors@[j].spec_specificity(),
            ),
        decreases i,
    {
        i = i - 1;
    }
    let ghost before = selectors@;
    selectors.insert(i, s);
    assert forall|a: int, b: int|
        0 <= a < b < selectors@.len() implies !specificity_lt(
        #[trigger] selectors@[b].spec_specificity(),
        #[trigger] selectors@[a].spec_specificity(),
    ) by {
        if b < i {
            assert(selectors@[a] == before[a] && selectors@[b] == before[b]);
        } else if b == i {
            assert(selectors@[a] == before[a]);
            assert(!specificity_lt(key, before[i - 1].spec_specificity()));
            if a < i - 1 {
                assert(!specificity_lt(before[i - 1].spec_specificity(), before[a].spec_specificity()));
            }
        } else if a < i {
            assert(selectors@[a] == before[a] && selectors@[b] == before[b - 1]);
        } else if a == i {
            assert(selectors@[b] == before[b - 1]);
            assert(specificity_lt(key, before[b - 1].spec_specificity()));
        } else {
            assert(selectors@[a] == before[a - 1] && selectors@[b] == before[b - 1]);
        }
    }
}

struct Parser {
    pos: usize,
    input: Vec<char>,
    source: String,
}

impl Parser {
    spec fn wf(&self) -> bool {
        self.pos <= self.input@.len() <= usize::MAX && self.input@ == self.source@
    }

    /// Only the position moves, and never backwards.
    spec fn advanced(&self, from: &Parser) -> bool {
        &&& self.wf()
        &&& self.input == from.input
        &&& self.source == from.source
        &&& from.pos <= self.pos
    }

    // Read the next character without consuming it.
    fn next_char(&self) -> (r: char)
        requires
            self.wf(),
            self.pos < self.input@.len(),
        ensures
            r == self.input@[self.pos as int],
    {
        self.input[self.pos]
    }

    // Consume the character at the current position.
    fn consume_char(&mut self) -> (r: char)
        requires
            old(self).wf(),
            old(self).pos < old(self).input@.len(),
        ensures
            final(self).advanced(old(self)),
            final(self).pos == old(self).pos + 1,
            r == old(self).input@[old(self).pos as int],
    {
        let c = self.next_char();
        self.pos = self.pos + 1;
        c
    }

    // Consume the longest run of characters that pass `test`.
    fn consume_while(&mut self, test: CharTest) -> (r: String)
        requires
            old(self).wf(),
        ensures
            final(self).advanced(old(self)),
            r@ == old(self).input@.subrange(old(self).pos as int, final(self).pos as int),
            forall|j: int|
                old(self).pos <= j < final(self).pos ==> passes(test, #[trigger] old(self).input@[j]),
            final(self).pos == old(self).input@.len() || !passes(
                test,
                old(self).input@[final(self).pos as int],
            ),
    {
        let start = self.pos;
        while !self.eof() && test_char(test, self.next_char())
            invariant
                self.advanced(old(self)),
                start == old(self).pos,
                forall|j: int| start <= j < self.pos ==> passes(test, #[trigger] self.input@[j]),
            decreases self.input@.len() - self.pos,
        {
            self.pos = self.pos + 1;
        }
        substring(&self.source, start, self.pos)
    }

    // A property name or keyword.
    fn parse_identfier(&mut self) -> (r: String)
        requires
            old(self).wf(),
        ensures
            final(self).advanced(old(self)),
            r@ == old(self).input@.subrange(old(self).pos as int, final(self).pos as int),
            forall|j: int| 0 <= j < r@.len() ==> is_identifier_char(#[trigger] r@[j]),
            final(self).pos == old(self).input@.len() || !is_identifier_char(
                old(self).input@[final(self).pos as int],
            ),
    {
        self.consume_while(CharTest::Identifier)
    }

    // Has all input been consumed?
    fn eof(&self) -> (r: bool)
        requires
            self.wf(),
        ensures
            r == (self.pos >= self.input@.len()),
    {
        self.pos >= self.input.len()
    }

    // Consume and discard whitespace.
    fn consume_whitespace(&mut self)
        requires
            old(self).wf(),
        ensures
            final(self).advanced(old(self)),
            final(self).pos == old(self).input@.len() || !is_whitespace(
                old(self).input@[final(self).pos as int],
            ),
    {
        self.consume_while(CharTest::Whitespace);
    }

    // Consume one character and tell whether it is `c`.
    fn expect_char(&mut self, c: char) -> (r: bool)
        requires
            old(self).wf(),
        ensures
            final(self).advanced(old(self)),
            r == (old(self).pos < old(self).input@.len() && old(self).input@[old(self).pos as int]
                == c),
            old(self).pos < old(self).input@.len() ==> final(self).pos == old(self).pos + 1,
    {
        if self.eof() {
            return false;
        }
        self.consume_char() == c
    }

    // Does the input at the current position start with `s`?
    fn starts_with(&self, s: &str) -> (r: bool)
        requires
            self.wf(),
        ensures
            r == (self.pos + s@.len() <= self.input@.len() && self.input@.subrange(
                self.pos as int,
                self.pos + s@.len(),
            ) == s@),
    {
        let t = chars_of(s);
        if t.len() > self.input.len() - self.pos {
            return false;
        }
        let mut i: usize = 0;
        while i < t.len()
            invariant
                self.wf(),
                t@ == s@,
                self.pos + t@.len() <= self.input@.len(),
                i <= t@.len(),
                forall|j: int| 0 <= j < i ==> self.input@[self.pos + j] == t@[j],
            decreases t.len() - i,
        {
            if self.input[self.pos + i] != t[i] {
                assert(self.input@.subrange(self.pos as int, self.pos + s@.len())[i as int]
                    != s@[i as int]);
                return false;
            }
            i = i + 1;
        }
        assert(self.input@.subrange(self.pos as int, self.pos + s@.len()) =~= s@);
        true
    }

    // If the exact string `s` is found at the current position, consume it.
    fn expect(&mut self, s: &str) -> (r: bool)
        requires
            old(self).wf(),
        ensures
            final(self).advanced(old(self)),
            r == (old(self).pos + s@.len() <= old(self).input@.len() && old(self).input@.subrange(
                old(self).pos as int,
                old(self).pos + s@.len(),
            ) == s@),
            r ==> final(self).pos == old(self).pos + s@.len(),
            !r ==> final(self).pos == old(self).pos,
    {
        if self.starts_with(s) {
            self.pos = self.pos + s.unicode_len();
            true
        } else {
            false
        }
    }

    // A simple selector such as `type#id.class1.class2`; `*` adds nothing.
    fn parse_simple_selector(&mut self) -> (r: SimpleSelector)
        requires
            old(self).wf(),
        ensures
            final(self).advanced(old(self)),
    {
        let mut selector = SimpleSelector { tag_name: None, id: None, class: Vec::new() };
        while !self.eof()
            invariant
                self.advanced(old(self)),
            decreases self.input@.len() - self.pos,
        {
            let c = self.next_char();
            if c == '#' {
                self.consume_char();
                selector.id = Some(self.parse_identfier());
            } else if c == '.' {
                self.consume_char();
                selector.class.push(self.parse_identfier());
            } else if c == '*' {
                self.consume_char();
            } else if valid_identifier_char(c) {
                selector.tag_name = Some(self.parse_identfier());
            } else {
                break;
            }
        }
        selector
    }

    fn parse_rules(&mut self, origin: CSSOrigin) -> (r: Vec<Rule>)
        requires
            old(self).wf(),
        ensures
            final(self).advanced(old(self)),
            sheet_well_formed(StylesSheet { rules: r, origin }),
    {
        let mut rules: Vec<Rule> = Vec::new();
        loop
            invariant
                self.advanced(old(self)),
                sheet_well_formed(StylesSheet { rules, origin }),
            decreases self.input@.len() - self.pos,
        {
            self.consume_whitespace();
            if self.eof() {
                break;
            }
            let start = self.pos;
            if let Some(rule) = self.parse_rule(origin) {
                let ghost before = rules@;
                rules.push(rule);
                assert forall|i: int| 0 <= i < before.len() implies rules@[i] == before[i] by {}
            }
            if self.pos == start {
                break;
            }
        }
        rules
    }

    // A rule set: `<selectors> { <declarations> }`.
    fn parse_rule(&mut self, origin: CSSOrigin) -> (r: Option<Rule>)
        requires
            old(self).wf(),
        ensures
            final(self).advanced(old(self)),
            r matches Some(rule) ==> rule.origin == origin && selectors_sorted(rule.selectors@)
                && forall|k: int|
                0 <= k < rule.declarations@.len() ==> (#[trigger] rule.declarations@[k]).origin
                    == origin,
    {
        let selectors = self.parse_selectors();
        let declarations = self.parse_declarations(origin);
        match (selectors, declarations) {
            (Some(s), Some(d)) => Some(Rule { selectors: s, declarations: d, origin }),
            _ => None,
        }
    }

    // Comma separated selectors, up to `{`, sorted by ascending specificity.
    fn parse_selectors(&mut self) -> (r: Option<Vec<Selector>>)
        requires
            old(self).wf(),
        ensures
            final(self).advanced(old(self)),
            r matches Some(v) ==> selectors_sorted(v@),
    {
        let mut selectors: Vec<Selector> = Vec::new();
        loop
            invariant
                self.advanced(old(self)),
                selectors_sorted(selectors@),
            decreases self.input@.len() - self.pos,
        {
            let start = self.pos;
            let s = Selector::Simple(self.parse_simple_selector());
            insert_sorted(&mut selectors, s);
            self.consume_whitespace();
            if self.eof() {
                return None;
            }
            let c = self.next_char();
            if c == ',' {
                self.consume_char();
                self.consume_whitespace();
            } else if c == '{' {
                break;
            } else {
                return None;
            }
        }
        Some(selectors)
    }

    // Declarations enclosed in `{ .. }`; a malformed one is skipped up to
    // the next `;` or `}`.
    fn parse_declarations(&mut self, origin: CSSOrigin) -> (r: Option<Vec<Declaration>>)
        requires
            old(self).wf(),
        ensures
            final(self).advanced(old(self)),
            r matches Some(v) ==> forall|k: int|
                0 <= k < v@.len() ==> (#[trigger] v@[k]).origin == origin,
    {
        if !self.expect_char('{') {
            return None;
        }
        let mut declarations: Vec<Declaration> = Vec::new();
        loop
            invariant
                self.advanced(old(self)),
                forall|k: int|
                    0 <= k < declarations@.len() ==> (#[trigger] declarations@[k]).origin == origin,
            decreases self.input@.len() - self.pos,
        {
            self.consume_whitespace();
            if self.eof() {
                break;
            }
            if self.next_char() == '}' {
                self.consume_char();
                break;
            }
            let start = self.pos;
            if let Some(d) = self.parse_declaraction(origin) {
                declarations.push(d);
            } else {
                self.consume_while(CharTest::NotEndOfDeclaration);
                if !self.eof() && self.next_char() == ';' {
                    self.consume_char();
                }
            }
            if self.pos == start {
                break;
            }
        }
        Some(declarations)
    }

    // A single declaration `<property>: <value> [!important];`.
    fn parse_declaraction(&mut self, origin: CSSOrigin) -> (r: Option<Declaration>)
        requires
            old(self).wf(),
        ensures
            final(self).advanced(old(self)),
            r matches Some(d) ==> d.origin == origin,
    {
        let name = self.parse_identfier();
        self.consume_whitespace();
        if !self.expect_char(':') {
            return None;
        }
        self.consume_whitespace();
        let value = match self.parse_value() {
            Some(v) => v,
            None => {
                return None;
            },
        };
        self.consume_whitespace();
        let is_important = self.expect("!important");
        self.consume_whitespace();
        if !self.expect_char(';') {
            return None;
        }
        Some(Declaration { name, value, origin, is_important })
    }

    // A length, a `#rrggbb` color, or a keyword.
    fn parse_value(&mut self) -> (r: Option<Value>)
        requires
            old(self).wf(),
        ensures
            final(self).advanced(old(self)),
    {
        if self.eof() {
            return None;
        }
        let c = self.next_char();
        if '0' <= c && c <= '9' {
            self.parse_length()
        } else if c == '#' {
            self.parse_color()
        } else {
            Some(Value::Keyword(self.parse_identfier()))
        }
    }

    fn parse_length(&mut self) -> (r: Option<Value>)
        requires
            old(self).wf(),
        ensures
            final(self).advanced(old(self)),
    {
        let n = self.parse_number();
        match self.parse_unit() {
            Some(u) => Some(Value::Length(n, u)),
            None => None,
        }
    }

    // A number `digits[.digits]`, in whole pixels: the fraction is dropped,
    // and a value beyond `i64::MAX` is held at it.
    fn parse_number(&mut self) -> (r: i64)
        requires
            old(self).wf(),
        ensures
            final(self).advanced(old(self)),
            r == if decimal_value(
                before_dot(old(self).input@.subrange(old(self).pos as int, final(self).pos as int)),
            ) > i64::MAX {
                i64::MAX as int
            } else {
                decimal_value(
                    before_dot(old(self).input@.subrange(old(self).pos as int, final(self).pos as int)),
                )
            },
    {
        let digits = self.consume_while(CharTest::Number);
        let chars = chars_of(digits.as_str());
        let mut value: i128 = 0;
        let mut i: usize = 0;
        while i < chars.len() && chars[i] != '.'
            invariant
                0 <= value <= i64::MAX,
                i <= chars@.len(),
                forall|j: int|
                    0 <= j < chars@.len() ==> ('0' <= #[trigger] chars@[j] && chars@[j] <= '9')
                        || chars@[j] == '.',
                forall|j: int| 0 <= j < i ==> chars@[j] != '.',
                decimal_value(chars@.take(i as int)) >= 0,
                value == if decimal_value(chars@.take(i as int)) > i64::MAX {
                    i64::MAX as int
                } else {
                    decimal_value(chars@.take(i as int))
                },
            decreases chars.len() - i,
        {
            let d = (chars[i] as u32 - '0' as u32) as i128;
            assert(chars@.take(i + 1).drop_last() == chars@.take(i as int));
            value = value * 10 + d;
            if value > i64::MAX as i128 {
                value = i64::MAX as i128;
            }
            i = i + 1;
        }
        proof {
            lemma_before_dot(chars@, i as int);
        }
        value as i64
    }

    // `px`, `em` or `rem`, in any case.
    fn parse_unit(&mut self) -> (r: Option<Unit>)
        requires
            old(self).wf(),
        ensures
            final(self).advanced(old(self)),
            r == unit_named(
                old(self).input@.subrange(old(self).pos as int, final(self).pos as int).map_values(
                    |c: char| ascii_lower(c),
                ),
            ),
    {
        let unit = chars_of(self.parse_identfier().as_str());
        let mut lower: Vec<char> = Vec::new();
        let mut i: usize = 0;
        while i < unit.len()
            invariant
                i <= unit@.len(),
                lower@ == unit@.take(i as int).map_values(|c: char| ascii_lower(c)),
            decreases unit.len() - i,
        {
            let c = unit[i];
            lower.push(
                if 'A' <= c && c <= 'Z' {
                    ((c as u32) + 32) as u8 as char
                } else {
                    c
                },
            );
            assert(lower@ =~= unit@.take(i + 1).map_values(|c: char| ascii_lower(c)));
            i = i + 1;
        }
        assert(unit@.take(i as int) =~= unit@);
        if lower.len() == 2 && lower[0] == 'p' && lower[1] == 'x' {
            assert(lower@ =~= seq!['p', 'x']);
            Some(Unit::Px)
        } else if lower.len() == 2 && lower[0] == 'e' && lower[1] == 'm' {
            assert(lower@ =~= seq!['e', 'm']);
            Some(Unit::Em)
        } else if lower.len() == 3 && lower[0] == 'r' && lower[1] == 'e' && lower[2] == 'm' {
            assert(lower@ =~= seq!['r', 'e', 'm']);
            Some(Unit::Rem)
        } else {
            None
        }
    }

    // `#rrggbb`, fully opaque.
    fn parse_color(&mut self) -> (r: Option<Value>)
        requires
            old(self).wf(),
        ensures
            final(self).advanced(old(self)),
    {
        if !self.expect_char('#') {
            return None;
        }
        let r = self.parse_hex_pair();
        let g = self.parse_hex_pair();
        let b = self.parse_hex_pair();
        match (r, g, b) {
            (Some(r), Some(g), Some(b)) => Some(Value::Color(ColorRGBA { r, g, b, a: 255 })),
            _ => None,
        }
    }

    // Two hexadecimal digits.
    fn parse_hex_pair(&mut self) -> (r: Option<u8>)
        requires
            old(self).wf(),
        ensures
            final(self).advanced(old(self)),
            r is Some ==> {
                &&& old(self).pos + 2 <= old(self).input@.len()
                &&& hex_value(old(self).input@[old(self).pos as int]) is Some
                &&& hex_value(old(self).input@[old(self).pos + 1]) is Some
                &&& r->0 == hex_value(old(self).input@[old(self).pos as int])->0 * 16 + hex_value(
                    old(self).input@[old(self).pos + 1],
                )->0
            },
    {
        if self.input.len() - self.pos < 2 {
            return None;
        }
        let hi = hex_digit(self.consume_char());
        let lo = hex_digit(self.consume_char());
        match (hi, lo) {
            (Some(h), Some(l)) => Some(h * 16 + l),
            _ => None,
        }
    }
}

/// Parses a stylesheet of the given origin. Malformed rules and
/// declarations are skipped.
pub fn parse(source: String, origin: CSSOrigin) -> (r: StylesSheet)
    ensures
        r.origin == origin,
        sheet_well_formed(r),
{
    let input = chars_of(source.as_str());
    assert(input.len() <= usize::MAX);
    let mut parser = Parser { pos: 0, input, source };
    StylesSheet { rules: parser.parse_rules(origin), origin }
}

} // verus!
