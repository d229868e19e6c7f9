//! Selector matching, the cascade, and the styled tree.

use vstd::prelude::*;

use crate::css::{
    specificity_lt, CSSOrigin, Declaration, Rule, Selector, SimpleSelector, Specificity,
    StylesSheet, Value,
};
use crate::dom::{ElementData, Node, NodeType};
use crate::props::{is_inherited, lookup_of, value_of, with_inherited, PropertyMap};
use crate::text::str_eq;

verus! {

/// Whether a simple selector matches an element: each part that is present
/// must agree with the element.
pub open spec fn simple_matches(e: ElementData, s: SimpleSelector) -> bool {
    &&& (s.tag_name is Some ==> s.tag_name->0@ == e.tag_name@)
    &&& (s.id is Some ==> e.attrs@.contains_key("id"@) && e.attrs@["id"@] == s.id->0@)
    &&& forall|j: int| 0 <= j < s.class@.len() ==> e.spec_has_class(#[trigger] s.class@[j]@)
}

pub open spec fn selector_matches(e: ElementData, s: Selector) -> bool {
    match s {
        Selector::Simple(simple) => simple_matches(e, simple),
    }
}

fn matches_simple_selector(element: &ElementData, selector: &SimpleSelector) -> (r: bool)
    ensures
        r == simple_matches(*element, *selector),
{
    if let Some(name) = &selector.tag_name {
        if *name != element.tag_name {
            return false;
        }
    }
    if let Some(id) = &selector.id {
        match element.id() {
            Some(own) => {
                if *own != *id {
                    return false;
                }
            },
            None => {
                return false;
            },
        }
    }
    let mut i: usize = 0;
    while i < selector.class.len()
        invariant
            i <= selector.class.len(),
            forall|j: int| 0 <= j < i ==> element.spec_has_class(#[trigger] selector.class@[j]@),
        decreases selector.class.len() - i,
    {
        if !element.has_class(selector.class[i].as_str()) {
            return false;
        }
        i = i + 1;
    }
    true
}

pub fn matches(element: &ElementData, selector: &Selector) -> (r: bool)
    ensures
        r == selector_matches(*element, *selector),
{
    match selector {
        Selector::Simple(s) => matches_simple_selector(element, s),
    }
}

/// The specificity of the first selector in `sels` that matches `e`.
pub open spec fn first_match(e: ElementData, sels: Seq<Selector>) -> Option<Specificity>
    decreases sels.len(),
{
    if sels.len() == 0 {
        None
    } else if selector_matches(e, sels[0]) {
        Some(sels[0].spec_specificity())
    } else {
        first_match(e, sels.drop_first())
    }
}

fn match_rule(element: &ElementData, rule: &Rule) -> (r: Option<Specificity>)
    ensures
        r == first_match(*element, rule.selectors@),
{
    let mut i: usize = 0;
    assert(rule.selectors@.skip(0) =~= rule.selectors@);
    while i < rule.selectors.len()
        invariant
            i <= rule.selectors.len(),
            first_match(*element, rule.selectors@) == first_match(
                *element,
                rule.selectors@.skip(i as int),
            ),
        decreases rule.selectors.len() - i,
    {
        assert(rule.selectors@.skip(i as int).drop_first() == rule.selectors@.skip(i + 1));
        if matches(element, &rule.selectors[i]) {
            return Some(rule.selectors[i].specificity());
        }
        i = i + 1;
    }
    None
}

/// A declaration that applies to an element, with the origin of its
/// stylesheet and the specificity of the selector through which it applies.
pub type Candidate = (Declaration, CSSOrigin, Specificity);

/// Cascade priority of a declaration, lowest first: user normal, author
/// normal, author important, user important.
pub open spec fn priority(d: Declaration) -> int {
    match (d.origin, d.is_important) {
        (CSSOrigin::User, false) => 0,
        (CSSOrigin::Author, false) => 1,
        (CSSOrigin::Author, true) => 2,
        (CSSOrigin::User, true) => 3,
    }
}

/// Among declarations of equal priority, rules of user stylesheets come
/// before those of author stylesheets.
pub open spec fn origin_rank(o: CSSOrigin) -> int {
    match o {
        CSSOrigin::User => 0,
        CSSOrigin::Author => 1,
    }
}

/// `a` does not outrank `b`: by priority, then stylesheet origin, then
/// specificity.
pub open spec fn ranks_at_most(a: Candidate, b: Candidate) -> bool {
    priority(a.0) < priority(b.0) || (priority(a.0) == priority(b.0) && (origin_rank(a.1)
        < origin_rank(b.1) || (origin_rank(a.1) == origin_rank(b.1) && !specificity_lt(
        b.2,
        a.2,
    ))))
}

/// The rules that match `e`, in order, each with its index and the
/// specificity of its first matching selector.
pub open spec fn matched_rules(e: ElementData, rules: Seq<Rule>) -> Seq<(Specificity, int)>
    decreases rules.len(),
{
    if rules.len() == 0 {
        Seq::empty()
    } else {
        let m = matched_rules(e, rules.drop_last());
        match first_match(e, rules.last().selectors@) {
            Some(sp) => m.push((sp, rules.len() - 1)),
            None => m,
        }
    }
}

/// The declarations of the matched rules `ms` of `rules`, in order.
pub open spec fn matched_candidates(
    rules: Seq<Rule>,
    ms: Seq<(Specificity, int)>,
    origin: CSSOrigin,
) -> Seq<Candidate>
    decreases ms.len(),
{
    if ms.len() == 0 {
        Seq::empty()
    } else {
        matched_candidates(rules, ms.drop_last(), origin) + rules[ms.last().1].declarations@.map_values(
            |d: Declaration| (d, origin, ms.last().0),
        )
    }
}

pub open spec fn rules_candidates(e: ElementData, rules: Seq<Rule>, origin: CSSOrigin) -> Seq<
    Candidate,
> {
    matched_candidates(rules, matched_rules(e, rules), origin)
}

/// The rules of `stylesheet` that match `element`: for each, the
/// specificity of its first matching selector and its index.
fn matching_rules(element: &ElementData, stylesheet: &StylesSheet) -> (r: Vec<(Specificity, usize)>)
    ensures
        r@.map_values(|m: (Specificity, usize)| (m.0, m.1 as int)) == matched_rules(
            *element,
            stylesheet.rules@,
        ),
{
    let mut matched: Vec<(Specificity, usize)> = Vec::new();
    let mut j: usize = 0;
    assert(stylesheet.rules@.take(0) =~= Seq::<Rule>::empty());
    while j < stylesheet.rules.len()
        invariant
            j <= stylesheet.rules@.len(),
            matched@.map_values(|m: (Specificity, usize)| (m.0, m.1 as int)) == matched_rules(
                *element,
                stylesheet.rules@.take(j as int),
            ),
        decreases stylesheet.rules@.len() - j,
    {
        assert(stylesheet.rules@.take(j + 1).drop_last() == stylesheet.rules@.take(j as int));
        let ghost before = matched@;
        if let Some(sp) = match_rule(element, &stylesheet.rules[j]) {
            matched.push((sp, j));
            assert(matched@.map_values(|m: (Specificity, usize)| (m.0, m.1 as int)) =~= before.map_values(
                |m: (Specificity, usize)| (m.0, m.1 as int),
            ).push((sp, j as int)));
        }
        j = j + 1;
    }
    assert(stylesheet.rules@.take(j as int) =~= stylesheet.rules@);
    matched
}

/// Every declaration that applies to `e`, in stylesheet, rule and
/// declaration order.
pub open spec fn candidates(e: ElementData, sheets: Seq<StylesSheet>) -> Seq<Candidate>
    decreases sheets.len(),
{
    if sheets.len() == 0 {
        Seq::empty()
    } else {
        candidates(e, sheets.drop_last()) + rules_candidates(
            e,
            sheets.last().rules@,
            sheets.last().origin,
        )
    }
}

/// The winning candidate per property name after offering `x` to `m`: `x`
/// wins unless the current winner outranks it.
pub open spec fn offer_step(m: Map<Seq<char>, Candidate>, x: Candidate) -> Map<
    Seq<char>,
    Candidate,
> {
    if m.contains_key(x.0.name@) && !ranks_at_most(m[x.0.name@], x) {
        m
    } else {
        m.insert(x.0.name@, x)
    }
}

/// The winning candidate per property name: the highest-ranked one, and of
/// equally ranked ones the last.
pub open spec fn cascade(c: Seq<Candidate>) -> Map<Seq<char>, Candidate>
    decreases c.len(),
{
    if c.len() == 0 {
        Map::empty()
    } else {
        offer_step(cascade(c.drop_last()), c.last())
    }
}

/// The values that the cascade gives `e`, before inheritance.
pub open spec fn cascaded_values(e: ElementData, sheets: Seq<StylesSheet>) -> Map<
    Seq<char>,
    Value,
> {
    cascade(candidates(e, sheets)).map_values(|c: Candidate| c.0.value)
}

/// The computed values of `e` whose parent has the values `parent`.
pub open spec fn spec_specified_values(
    e: ElementData,
    sheets: Seq<StylesSheet>,
    parent: Map<Seq<char>, Value>,
) -> Map<Seq<char>, Value> {
    with_inherited(cascaded_values(e, sheets), parent)
}

/// The map that a list of candidates denotes: a later one replaces an
/// earlier one of the same name.
pub open spec fn candidate_map(s: Seq<Candidate>) -> Map<Seq<char>, Candidate>
    decreases s.len(),
{
    if s.len() == 0 {
        Map::empty()
    } else {
        candidate_map(s.drop_last()).insert(s.last().0.name@, s.last())
    }
}

fn specificity_le(a: Specificity, b: Specificity) -> (r: bool)
    ensures
        r == !specificity_lt(b, a),
{
    !(b.0 < a.0 || (b.0 == a.0 && (b.1 < a.1 || (b.1 == a.1 && b.2 < a.2))))
}

fn priority_of(d: &Declaration) -> (r: u8)
    ensures
        r == priority(*d),
{
    match (d.origin, d.is_important) {
        (CSSOrigin::User, false) => 0,
        (CSSOrigin::Author, false) => 1,
        (CSSOrigin::Author, true) => 2,
        (CSSOrigin::User, true) => 3,
    }
}

fn rank_of(o: CSSOrigin) -> (r: u8)
    ensures
        r == origin_rank(o),
{
    match o {
        CSSOrigin::User => 0,
        CSSOrigin::Author => 1,
    }
}

fn candidate_ranks_at_most(a: &Candidate, b: &Candidate) -> (r: bool)
    ensures
        r == ranks_at_most(*a, *b),
{
    let pa = priority_of(&a.0);
    let pb = priority_of(&b.0);
    let ra = rank_of(a.1);
    let rb = rank_of(b.1);
    pa < pb || (pa == pb && (ra < rb || (ra == rb && specificity_le(a.2, b.2))))
}

/// Offers `x` to the winners gathered so far.
fn offer(winners: &mut Vec<Candidate>, x: Candidate)
    ensures
        candidate_map(final(winners)@) == offer_step(candidate_map(old(winners)@), x),
{
    let ghost m = candidate_map(winners@);
    let mut i: usize = winners.len();
    assert(winners@.take(i as int) =~= winners@);
    let mut beaten = false;
    while i > 0
        invariant_except_break
            !beaten,
        invariant
            i <= winners.len(),
            m == candidate_map(winners@),
            m.contains_key(x.0.name@) == candidate_map(winners@.take(i as int)).contains_key(
                x.0.name@,
            ),
            m.contains_key(x.0.name@) ==> m[x.0.name@] == candidate_map(
                winners@.take(i as int),
            )[x.0.name@],
        ensures
            beaten == (m.contains_key(x.0.name@) && !ranks_at_most(m[x.0.name@], x)),
        decreases i,
    {
        assert(winners@.take(i as int).drop_last() == winners@.take(i - 1));
        if winners[i - 1].0.name == x.0.name {
            beaten = !candidate_ranks_at_most(&winners[i - 1], &x);
            break;
        }
        i = i - 1;
    }
    if !beaten {
        let ghost old_w = winners@;
        winners.push(x);
        assert(winners@.drop_last() == old_w);
    }
}

proof fn lemma_matched_index(e: ElementData, rules: Seq<Rule>, t: int)
    requires
        0 <= t < matched_rules(e, rules).len(),
    ensures
        0 <= matched_rules(e, rules)[t].1 < rules.len(),
    decreases rules.len(),
{
    if rules.len() > 0 {
        let m = matched_rules(e, rules.drop_last());
        if t < m.len() {
            lemma_matched_index(e, rules.drop_last(), t);
        }
    }
}

/// Computes the values of `element`: the winning declaration of each
/// property named by a matching rule, completed by inheritance from `parent`.
#[verifier::rlimit(40)]
pub fn specified_values(
    element: &ElementData,
    stylesheets: &Vec<StylesSheet>,
    parent: Option<&PropertyMap>,
) -> (r: PropertyMap)
    ensures
        r@ == spec_specified_values(
            *element,
            stylesheets@,
            match parent {
                Some(p) => p@,
                None => Map::empty(),
            },
        ),
{
    let ghost e = *element;
    let mut winners: Vec<Candidate> = Vec::new();
    let ghost mut seen: Seq<Candidate> = Seq::empty();
    let mut i: usize = 0;
    while i < stylesheets.len()
        invariant
            e == *element,
            i <= stylesheets.len(),
            seen == candidates(e, stylesheets@.take(i as int)),
            candidate_map(winners@) == cascade(seen),
        decreases stylesheets.len() - i,
    {
        let sheet = &stylesheets[i];
        let ghost before = seen;
        assert(stylesheets@.take(i + 1).drop_last() == stylesheets@.take(i as int));
        let matched = matching_rules(element, sheet);
        let ghost ms = matched_rules(e, sheet.rules@);
        assert(matched@.map_values(|m: (Specificity, usize)| (m.0, m.1 as int)).take(0) =~= Seq::<
            (Specificity, int),
        >::empty());
        let mut t: usize = 0;
        while t < matched.len()
            invariant
                e == *element,
                t <= matched@.len(),
                matched@.map_values(|m: (Specificity, usize)| (m.0, m.1 as int)) == ms,
                ms == matched_rules(e, sheet.rules@),
                before == candidates(e, stylesheets@.take(i as int)),
                seen == before + matched_candidates(sheet.rules@, ms.take(t as int), sheet.origin),
                candidate_map(winners@) == cascade(seen),
            decreases matched@.len() - t,
        {
            let (sp, j) = matched[t];
            proof {
                assert(ms[t as int] == (sp, j as int));
                lemma_matched_index(e, sheet.rules@, t as int);
            }
            let rule = &sheet.rules[j];
            let ghost before_rule = seen;
            assert(ms.take(t + 1).drop_last() == ms.take(t as int));
            let mut k: usize = 0;
            while k < rule.declarations.len()
                invariant
                    k <= rule.declarations.len(),
                    seen == before_rule + rule.declarations@.take(k as int).map_values(
                        |d: Declaration| (d, sheet.origin, sp),
                    ),
                    candidate_map(winners@) == cascade(seen),
                decreases rule.declarations.len() - k,
            {
                let x: Candidate = (rule.declarations[k].clone(), sheet.origin, sp);
                offer(&mut winners, x);
                proof {
                    let next = seen.push(x);
                    assert(next.drop_last() == seen);
                    seen = next;
                    assert(seen =~= before_rule + rule.declarations@.take(k + 1).map_values(
                        |d: Declaration| (d, sheet.origin, sp),
                    ));
                }
                k = k + 1;
            }
            assert(rule.declarations@.take(k as int) =~= rule.declarations@);
            assert(seen =~= before + matched_candidates(sheet.rules@, ms.take(t + 1), sheet.origin));
            t = t + 1;
        }
        assert(ms.take(t as int) =~= ms);
        i = i + 1;
    }
    assert(stylesheets@.take(i as int) =~= stylesheets@);
    let mut values = PropertyMap::new();
    let mut t: usize = 0;
    assert(winners@.take(0) =~= Seq::<Candidate>::empty());
    while t < winners.len()
        invariant
            t <= winners.len(),
            values@ =~= candidate_map(winners@.take(t as int)).map_values(
                |c: Candidate| c.0.value,
            ),
        decreases winners.len() - t,
    {
        assert(winners@.take(t + 1).drop_last() == winners@.take(t as int));
        values.insert(winners[t].0.name.clone(), winners[t].0.value.clone());
        t = t + 1;
    }
    assert(winners@.take(t as int) =~= winners@);
    match parent {
        Some(p) => values.inherit_from(p),
        None => {
            assert(values@ =~= with_inherited(values@, Map::empty()));
        },
    }
    values
}

/// Every applicable declaration is ranked at most as high as the winner of
/// its property.
proof fn lemma_cascade_winner(c: Seq<Candidate>, q: int)
    requires
        0 <= q < c.len(),
    ensures
        cascade(c).contains_key(c[q].0.name@),
        ranks_at_most(c[q], cascade(c)[c[q].0.name@]),
    decreases c.len(),
{
    if q < c.len() - 1 {
        lemma_cascade_winner(c.drop_last(), q);
        assert(c.drop_last()[q] == c[q]);
    }
}

/// The winner of a property is one of the applicable declarations.
proof fn lemma_cascade_member(c: Seq<Candidate>, n: Seq<char>)
    requires
        cascade(c).contains_key(n),
    ensures
        exists|p: int| 0 <= p < c.len() && c[p] == cascade(c)[n] && c[p].0.name@ == n,
    decreases c.len(),
{
    let m = cascade(c.drop_last());
    if m.contains_key(n) && cascade(c)[n] == m[n] {
        lemma_cascade_member(c.drop_last(), n);
        let p = choose|p: int|
            0 <= p < c.drop_last().len() && c.drop_last()[p] == m[n] && c.drop_last()[p].0.name@
                == n;
        assert(c[p] == c.drop_last()[p]);
    } else {
        assert(c[c.len() - 1] == cascade(c)[n]);
    }
}

/// Cascade precedence: when two applicable declarations set the same
/// property, user `!important` beats author `!important`, which beats author
/// normal, which beats user normal. The computed value comes from a
/// declaration of at least the higher priority, and when these two are the
/// only declarations of the property, from the higher one.
pub proof fn lemma_cascade_precedence(
    e: ElementData,
    sheets: Seq<StylesSheet>,
    parent: Map<Seq<char>, Value>,
    p: int,
    q: int,
)
    requires
        0 <= p < candidates(e, sheets).len(),
        0 <= q < candidates(e, sheets).len(),
        candidates(e, sheets)[p].0.name@ == candidates(e, sheets)[q].0.name@,
        priority(candidates(e, sheets)[p].0) < priority(candidates(e, sheets)[q].0),
    ensures
        ({
            let c = candidates(e, sheets);
            let n = c[q].0.name@;
            &&& spec_specified_values(e, sheets, parent).contains_key(n)
            &&& exists|r: int|
                0 <= r < c.len() && c[r].0.name@ == n && priority(c[r].0) >= priority(c[q].0)
                    && spec_specified_values(e, sheets, parent)[n] == c[r].0.value
            &&& (forall|r: int|
                0 <= r < c.len() && #[trigger] c[r].0.name@ == n ==> r == p || r == q)
                ==> spec_specified_values(e, sheets, parent)[n] == c[q].0.value
        }),
{
    let c = candidates(e, sheets);
    let n = c[q].0.name@;
    lemma_cascade_winner(c, q);
    lemma_cascade_member(c, n);
    let r = choose|r: int| 0 <= r < c.len() && c[r] == cascade(c)[n] && c[r].0.name@ == n;
    assert(spec_specified_values(e, sheets, parent)[n] == c[r].0.value);
}

/// A document node with its computed values, and its children in document
/// order: one styled node per document node.
#[derive(Debug)]
pub struct StyledNode<'a> {
    pub node: &'a Node,
    pub specified_values: PropertyMap,
    pub children: Vec<StyledNode<'a>>,
}

/// How a node takes part in layout.
#[derive(Debug, Clone, Copy, PartialEq, Eq, Structural)]
pub enum Display {
    Inline,
    Block,
    /// `display: none`: no box for the node or its descendants.
    Hidden,
}

pub open spec fn values_of(m: Option<&PropertyMap>) -> Map<Seq<char>, Value> {
    match m {
        Some(p) => p@,
        None => Map::empty(),
    }
}

/// The computed values of a document node: those of the cascade for an
/// element, none for text and comments.
pub open spec fn node_values(n: Node, sheets: Seq<StylesSheet>, parent: Map<Seq<char>, Value>) -> Map<
    Seq<char>,
    Value,
> {
    match n.node_type {
        NodeType::Element(e) => spec_specified_values(e, sheets, parent),
        _ => Map::empty(),
    }
}

/// `s` is the styled tree of `n` under a parent with values `parent`: the
/// same shape, each node's values computed with its parent's as context.
pub open spec fn styled_from(
    s: StyledNode,
    n: Node,
    sheets: Seq<StylesSheet>,
    parent: Map<Seq<char>, Value>,
) -> bool
    decreases n,
{
    &&& *s.node == n
    &&& s.specified_values@ == node_values(n, sheets, parent)
    &&& s.children@.len() == n.children@.len()
    &&& forall|i: int|
        #![trigger s.children@[i]]
        0 <= i < n.children@.len() ==> styled_from(
            s.children@[i],
            n.children@[i],
            sheets,
            s.specified_values@,
        )
}

/// Builds the styled tree of `root`, whose parent has the values `parent`.
pub fn style_tree<'a>(
    root: &'a Node,
    stylesheets: &'a Vec<StylesSheet>,
    parent: Option<&PropertyMap>,
) -> (r: StyledNode<'a>)
    ensures
        styled_from(r, *root, stylesheets@, values_of(parent)),
    decreases root,
{
    let values = match &root.node_type {
        NodeType::Element(e) => specified_values(e, stylesheets, parent),
        _ => PropertyMap::new(),
    };
    let mut children: Vec<StyledNode<'a>> = Vec::new();
    let mut i: usize = 0;
    while i < root.children.len()
        invariant
            i <= root.children.len(),
            children@.len() == i,
            forall|j: int|
                0 <= j < i ==> #[trigger] styled_from(
                    children@[j],
                    root.children@[j],
                    stylesheets@,
                    values@,
                ),
        decreases root.children.len() - i,
    {
        let child = style_tree(&root.children[i], stylesheets, Some(&values));
        children.push(child);
        i = i + 1;
    }
    let r = StyledNode { node: root, specified_values: values, children };
    assert forall|j: int| 0 <= j < root.children@.len() implies styled_from(
        r.children@[j],
        root.children@[j],
        stylesheets@,
        r.specified_values@,
    ) by {
        assert(styled_from(children@[j], root.children@[j], stylesheets@, values@));
    }
    r
}

/// Inheritance: when the cascade does not set property `k` on an element,
/// the element has `k` exactly when its parent has it and `k` is on the
/// inherited-property list, and then with the parent's value; so, step by
/// step, an inherited property takes the value of the nearest ancestor that
/// has one.
pub proof fn lemma_inheritance_closure(
    s: StyledNode,
    n: Node,
    sheets: Seq<StylesSheet>,
    parent: Map<Seq<char>, Value>,
    i: int,
    k: Seq<char>,
)
    requires
        styled_from(s, n, sheets, parent),
        0 <= i < n.children@.len(),
        n.children@[i].node_type is Element,
        !cascaded_values(n.children@[i].node_type->Element_0, sheets).contains_key(k),
    ensures
        is_inherited(k) ==> s.children@[i].specified_values@.contains_key(k)
            == s.specified_values@.contains_key(k),
        is_inherited(k) && s.specified_values@.contains_key(k)
            ==> s.children@[i].specified_values@[k] == s.specified_values@[k],
        !is_inherited(k) ==> !s.children@[i].specified_values@.contains_key(k),
{
    assert(s.children@.len() == n.children@.len());
    assert(styled_from(s.children@[i], n.children@[i], sheets, s.specified_values@));
}

/// `display: block` and `display: none` are recognised; anything else,
/// or no value, is inline.
pub open spec fn display_of(m: Map<Seq<char>, Value>) -> Display {
    match value_of(m, "display"@) {
        Some(Value::Keyword(k)) => if k@ == "block"@ {
            Display::Block
        } else if k@ == "none"@ {
            Display::Hidden
        } else {
            Display::Inline
        },
        _ => Display::Inline,
    }
}

impl<'a> StyledNode<'a> {
    /// The value of property `name`, if set.
    pub fn value(&self, name: &str) -> (r: Option<Value>)
        ensures
            r == value_of(self.specified_values@, name@),
    {
        self.specified_values.value(name)
    }

    /// The value of `name`, else of the shorthand `fallback_name`, else
    /// `default`.
    pub fn lookup(&self, name: &str, fallback_name: &str, default: &Value) -> (r: Value)
        ensures
            r == lookup_of(self.specified_values@, name@, fallback_name@, *default),
    {
        self.specified_values.lookup(name, fallback_name, default)
    }

    pub fn display(&self) -> (r: Display)
        ensures
            r == display_of(self.specified_values@),
    {
        match self.value("display") {
            Some(Value::Keyword(k)) => {
                if str_eq(k.as_str(), "block") {
                    Display::Block
                } else if str_eq(k.as_str(), "none") {
                    Display::Hidden
                } else {
                    Display::Inline
                }
            },
            _ => Display::Inline,
        }
    }
}

} // verus!
