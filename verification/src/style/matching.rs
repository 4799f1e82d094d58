//! Which selectors and rules match an element, and the order in which the
//! matching rules apply.

use crate::css::{
    views, Rule, RuleView, Selector, SelectorView, SimpleSelector, SimpleSelectorView,
    Specificity, Stylesheet, StylesheetView,
};
use crate::dom::{ElementData, ElementView};
use vstd::prelude::*;
use vstd::seq_lib::*;

verus! {

/// An element matches a simple selector when it has the tag name and the id
/// that the selector names, if it names one, and every class token of it.
pub open spec fn simple_matches(elem: ElementView, selector: SimpleSelectorView) -> bool {
    &&& selector.tag_name matches Some(name) ==> elem.tag_name == name
    &&& selector.id matches Some(id) ==> elem.id == Some(id)
    &&& forall|i: int|
        0 <= i < selector.class.len() ==> elem.classes.contains(#[trigger] selector.class[i])
}

/// An element matches a selector when it matches the simple selector in it.
pub open spec fn selector_matches(elem: ElementView, selector: SelectorView) -> bool {
    match selector {
        SelectorView::Simple(simple) => simple_matches(elem, simple),
    }
}

/// Whether the element has the tag name, the id and every class token that
/// the selector names.
pub fn matches_simple_selector(elem: &ElementData, selector: &SimpleSelector) -> (r: bool)
    ensures
        r == simple_matches(elem@, selector@),
{
    if let Some(name) = &selector.tag_name {
        if !(elem.tag_name == *name) {
            return false;
        }
    }
    if let Some(id) = &selector.id {
        match elem.id() {
            Some(own) => {
                if !(*own == *id) {
                    return false;
                }
            },
            None => {
                return false;
            },
        }
    }
    let mut i: usize = 0;
    while i < selector.class.len()
        invariant
            i <= selector.class@.len(),
            forall|k: int| 0 <= k < i ==> elem@.classes.contains(#[trigger] selector@.class[k]),
        decreases selector.class@.len() - i,
    {
        if !elem.has_class(&selector.class[i]) {
            assert(!elem@.classes.contains(selector@.class[i as int]));
            return false;
        }
        i += 1;
    }
    true
}

/// Whether the element matches the selector.
pub fn matches(elem: &ElementData, selector: &Selector) -> (r: bool)
    ensures
        r == selector_matches(elem@, selector@),
{
    match selector {
        Selector::Simple(simple) => matches_simple_selector(elem, simple),
    }
}

/// The first of `selectors`, from index `from` on, that matches the element.
pub open spec fn first_match(elem: ElementView, selectors: Seq<SelectorView>, from: int) -> Option<
    int,
>
    decreases selectors.len() - from,
{
    if from < 0 || from >= selectors.len() {
        None
    } else if selector_matches(elem, selectors[from]) {
        Some(from)
    } else {
        first_match(elem, selectors, from + 1)
    }
}

/// The specificity with which a rule applies to an element: that of the
/// first of its selectors that matches. A rule none of whose selectors
/// matches does not apply.
pub open spec fn rank(elem: ElementView, rule: RuleView) -> Option<(nat, nat, nat)> {
    match first_match(elem, rule.selectors, 0) {
        Some(i) => Some(rule.selectors[i].specificity()),
        None => None,
    }
}

/// A specificity as the numbers it counts.
pub open spec fn counts(specificity: Option<Specificity>) -> Option<(nat, nat, nat)> {
    match specificity {
        Some(s) => Some((s.0 as nat, s.1 as nat, s.2 as nat)),
        None => None,
    }
}

/// The specificity with which `rule` applies to `elem`, if it applies.
pub fn match_rule(elem: &ElementData, rule: &Rule) -> (r: Option<Specificity>)
    ensures
        counts(r) == rank(elem@, rule@),
{
    let mut i: usize = 0;
    while i < rule.selectors.len()
        invariant
            i <= rule.selectors@.len(),
            first_match(elem@, rule@.selectors, 0) == first_match(elem@, rule@.selectors, i as int),
        decreases rule.selectors@.len() - i,
    {
        if matches(elem, &rule.selectors[i]) {
            return Some(rule.selectors[i].specificity());
        }
        i += 1;
    }
    None
}

/// A rule that applies to an element: its place in the stylesheet and the
/// specificity with which it applies.
#[derive(Debug, PartialEq, Eq, Clone, Copy)]
pub struct MatchedRule {
    pub specificity: Specificity,
    pub rule: usize,
}

/// A matched rule with its counts and its place as mathematical integers.
pub struct MatchedView {
    pub specificity: (nat, nat, nat),
    pub rule: int,
}

impl View for MatchedRule {
    type V = MatchedView;

    open spec fn view(&self) -> MatchedView {
        MatchedView {
            specificity: (
                self.specificity.0 as nat,
                self.specificity.1 as nat,
                self.specificity.2 as nat,
            ),
            rule: self.rule as int,
        }
    }
}

/// The rules among the first `upto` of the stylesheet that apply to the
/// element, in source order.
pub open spec fn spec_matching(elem: ElementView, sheet: StylesheetView, upto: int) -> Seq<
    MatchedView,
>
    decreases upto,
{
    if upto <= 0 {
        Seq::empty()
    } else {
        match rank(elem, sheet.rules[upto - 1]) {
            Some(specificity) => spec_matching(elem, sheet, upto - 1).push(
                MatchedView { specificity, rule: upto - 1 },
            ),
            None => spec_matching(elem, sheet, upto - 1),
        }
    }
}

/// The matching rules are the rules that apply, each once and with its
/// specificity, and they stand in source order.
pub proof fn lemma_matching(elem: ElementView, sheet: StylesheetView, upto: int)
    requires
        upto <= sheet.rules.len(),
    ensures
        forall|m: MatchedView| #[trigger]
            spec_matching(elem, sheet, upto).contains(m) <==> 0 <= m.rule < upto && rank(
                elem,
                sheet.rules[m.rule],
            ) == Some(m.specificity),
        spec_matching(elem, sheet, upto).no_duplicates(),
        forall|i: int, j: int|
            0 <= i < j < spec_matching(elem, sheet, upto).len() ==> (#[trigger] spec_matching(
                elem,
                sheet,
                upto,
            )[i]).rule < (#[trigger] spec_matching(elem, sheet, upto)[j]).rule,
    decreases upto,
{
    let now = spec_matching(elem, sheet, upto);
    if upto > 0 {
        lemma_matching(elem, sheet, upto - 1);
        let before = spec_matching(elem, sheet, upto - 1);
        match rank(elem, sheet.rules[upto - 1]) {
            Some(specificity) => {
                let last = MatchedView { specificity, rule: upto - 1 };
                assert forall|m: MatchedView| #[trigger] now.contains(m) <==> 0 <= m.rule < upto
                    && rank(elem, sheet.rules[m.rule]) == Some(m.specificity) by {
                    if now.contains(m) {
                        let i = choose|i: int| 0 <= i < now.len() && now[i] == m;
                        if i < before.len() {
                            assert(before.contains(m));
                        }
                    }
                    if 0 <= m.rule < upto && rank(elem, sheet.rules[m.rule]) == Some(
                        m.specificity,
                    ) {
                        if m.rule == upto - 1 {
                            assert(now[before.len() as int] == m);
                        } else {
                            assert(before.contains(m));
                            let i = choose|i: int| 0 <= i < before.len() && before[i] == m;
                            assert(now[i] == m);
                        }
                    }
                }
                assert(!before.contains(last));
                assert forall|i: int, j: int| 0 <= i < j < now.len() implies (
                #[trigger] now[i]).rule < (#[trigger] now[j]).rule by {
                    assert(before.contains(before[i]));
                    if j < before.len() {
                        assert(before[i].rule < before[j].rule);
                    }
                }
            },
            None => {},
        }
    }
}

/// The rules of the stylesheet that apply to the element, in source order.
pub fn matching_rules(elem: &ElementData, stylesheet: &Stylesheet) -> (matched: Vec<MatchedRule>)
    ensures
        views(matched@) == spec_matching(elem@, stylesheet@, stylesheet@.rules.len() as int),
{
    let mut matched: Vec<MatchedRule> = Vec::new();
    let mut i: usize = 0;
    while i < stylesheet.rules.len()
        invariant
            i <= stylesheet.rules@.len(),
            views(matched@) == spec_matching(elem@, stylesheet@, i as int),
        decreases stylesheet.rules@.len() - i,
    {
        match match_rule(elem, &stylesheet.rules[i]) {
            Some(specificity) => {
                let item = MatchedRule { specificity, rule: i };
                matched.push(item);
            },
            None => {},
        }
        i += 1;
    }
    matched
}

/// Whether specificity `a` is lower than `b`: fewer ids, or as many ids and
/// fewer classes, or as many of both and fewer tag names.
pub open spec fn lower_specificity(a: (nat, nat, nat), b: (nat, nat, nat)) -> bool {
    a.0 < b.0 || (a.0 == b.0 && (a.1 < b.1 || (a.1 == b.1 && a.2 < b.2)))
}

/// Whether matched rule `a` applies before `b`: at a lower specificity, or at
/// the same specificity and earlier in the source.
pub open spec fn applies_before(a: MatchedView, b: MatchedView) -> bool {
    lower_specificity(a.specificity, b.specificity) || (a.specificity == b.specificity && a.rule
        < b.rule)
}

/// Whether `order` holds the rules of `matched` in the order in which they
/// apply: no rule stands before one that applies before it.
pub open spec fn is_ranking(order: Seq<MatchedView>, matched: Seq<MatchedView>) -> bool {
    &&& order.to_multiset() == matched.to_multiset()
    &&& forall|i: int, j: int|
        0 <= i < j < order.len() ==> !applies_before(#[trigger] order[j], #[trigger] order[i])
}

/// Ranking is stable: in a ranking of rules that differ from each other,
/// a rule stands before every rule that it applies before, so that rules
/// of the same specificity stand in source order.
pub proof fn lemma_ranking_is_stable(order: Seq<MatchedView>, matched: Seq<MatchedView>)
    requires
        is_ranking(order, matched),
        matched.no_duplicates(),
    ensures
        order.no_duplicates(),
        forall|m: MatchedView| #[trigger] order.contains(m) <==> matched.contains(m),
        forall|i: int, j: int|
            0 <= i < j < order.len() ==> applies_before(#[trigger] order[i], #[trigger] order[j]),
        forall|i: int, j: int|
            0 <= i < j < order.len() && (#[trigger] order[i]).specificity == (
            #[trigger] order[j]).specificity ==> order[i].rule < order[j].rule,
{
    matched.to_multiset_ensures();
    order.to_multiset_ensures();
    matched.lemma_multiset_has_no_duplicates();
    order.lemma_multiset_has_no_duplicates_conv();
    assert forall|m: MatchedView| #[trigger] order.contains(m) <==> matched.contains(m) by {
        assert(order.contains(m) <==> order.to_multiset().count(m) > 0);
    }
}

impl MatchedRule {
    /// Whether this rule applies before `other`.
    pub fn before(&self, other: &MatchedRule) -> (r: bool)
        ensures
            r == applies_before(self@, other@),
    {
        let a = self.specificity;
        let b = other.specificity;
        if a.0 != b.0 {
            a.0 < b.0
        } else if a.1 != b.1 {
            a.1 < b.1
        } else if a.2 != b.2 {
            a.2 < b.2
        } else {
            self.rule < other.rule
        }
    }
}

/// Puts matched rules into the order in which they apply: ascending by
/// specificity, and by place in the source where the specificity is the
/// same.
pub fn rank_rules(rules: &mut Vec<MatchedRule>)
    ensures
        is_ranking(views(final(rules)@), views(old(rules)@)),
{
    let mut order: Vec<MatchedRule> = Vec::new();
    let mut i: usize = 0;
    assert(views(rules@.subrange(0, 0)) =~= views(order@));
    while i < rules.len()
        invariant
            i <= rules@.len(),
            is_ranking(views(order@), views(rules@.subrange(0, i as int))),
        decreases rules@.len() - i,
    {
        let item = rules[i];
        let mut at: usize = order.len();
        while at > 0 && item.before(&order[at - 1])
            invariant
                at <= order@.len(),
                forall|k: int|
                    at <= k < order@.len() ==> applies_before(item@, #[trigger] order@[k]@),
            decreases at,
        {
            at -= 1;
        }
        proof {
            let before = views(order@);
            let after = views(order@.insert(at as int, item));
            assert(after =~= before.insert(at as int, item@));
            to_multiset_insert(before, at as int, item@);
            let taken = views(rules@.subrange(0, i as int));
            assert(views(rules@.subrange(0, i + 1)) =~= taken.push(item@));
            to_multiset_build(taken, item@);
            assert forall|a: int, b: int| 0 <= a < b < after.len() implies !applies_before(
                #[trigger] after[b],
                #[trigger] after[a],
            ) by {
                if a < at - 1 && b == at {
                    assert(!applies_before(before[at - 1], before[a]));
                }
            }
        }
        order.insert(at, item);
        i += 1;
    }
    assert(rules@.subrange(0, rules@.len() as int) =~= rules@);
    *rules = order;
}

} // verus!
