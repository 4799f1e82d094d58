//! Which declaration decides a property: the order of precedence among the
//! declarations that apply to an element, and the laws of that order.

use crate::css::{RuleView, StylesheetView, ValueView};
use crate::dom::ElementView;
use crate::style::matching::{applies_before, lower_specificity, rank, MatchedView};
use vstd::prelude::*;

verus! {

/// Rule `rule` of the stylesheet as a matched rule: with the specificity at
/// which it applies to the element.
pub open spec fn matched(elem: ElementView, sheet: StylesheetView, rule: int) -> MatchedView {
    MatchedView { specificity: rank(elem, sheet.rules[rule]).unwrap(), rule }
}

/// Whether rule `rule` applies to the element and its declaration `decl`
/// sets the property `name`.
pub open spec fn declares(
    elem: ElementView,
    sheet: StylesheetView,
    name: Seq<char>,
    rule: int,
    decl: int,
) -> bool {
    &&& 0 <= rule < sheet.rules.len()
    &&& rank(elem, sheet.rules[rule]) is Some
    &&& 0 <= decl < sheet.rules[rule].declarations.len()
    &&& sheet.rules[rule].declarations[decl].name == name
}

/// Whether declaration `d1` of rule `r1` yields to declaration `d2` of rule
/// `r2`: its rule applies before the other, or both stand in one rule and it
/// stands first.
pub open spec fn yields_to(
    elem: ElementView,
    sheet: StylesheetView,
    r1: int,
    d1: int,
    r2: int,
    d2: int,
) -> bool {
    applies_before(matched(elem, sheet, r1), matched(elem, sheet, r2)) || (r1 == r2 && d1 < d2)
}

/// Whether declaration `decl` of rule `rule` decides the property `name` of
/// the element: it sets the property, and every other declaration that sets
/// it yields to this one.
pub open spec fn decides(
    elem: ElementView,
    sheet: StylesheetView,
    name: Seq<char>,
    rule: int,
    decl: int,
) -> bool {
    &&& declares(elem, sheet, name, rule, decl)
    &&& forall|r: int, d: int| #[trigger]
        declares(elem, sheet, name, r, d) ==> (r == rule && d == decl) || yields_to(
            elem,
            sheet,
            r,
            d,
            rule,
            decl,
        )
}

/// Whether `props` is the cascade of the stylesheet on the element: it has
/// the properties that the rules that apply set, and each with the value of
/// the declaration that decides it.
pub open spec fn cascaded(
    elem: ElementView,
    sheet: StylesheetView,
    props: Map<Seq<char>, ValueView>,
) -> bool {
    &&& forall|name: Seq<char>| #[trigger]
        props.dom().contains(name) <==> exists|r: int, d: int|
            declares(elem, sheet, name, r, d)
    &&& forall|name: Seq<char>, r: int, d: int| #[trigger]
        decides(elem, sheet, name, r, d) ==> props.dom().contains(name) && props[name]
            == sheet.rules[r].declarations[d].value
}

/// The last of the first `upto` declarations of the rule that sets `name`.
pub open spec fn last_setting(rule: RuleView, name: Seq<char>, upto: int) -> Option<int>
    decreases upto,
{
    if upto <= 0 {
        None
    } else if rule.declarations[upto - 1].name == name {
        Some(upto - 1)
    } else {
        last_setting(rule, name, upto - 1)
    }
}

/// The declaration that decides `name` among those of the first `upto`
/// rules, as the rule and the declaration in it.
pub open spec fn deciding(
    elem: ElementView,
    sheet: StylesheetView,
    name: Seq<char>,
    upto: int,
) -> Option<(int, int)>
    decreases upto,
{
    if upto <= 0 {
        None
    } else {
        let rule = upto - 1;
        let before = deciding(elem, sheet, name, upto - 1);
        let here = last_setting(
            sheet.rules[rule],
            name,
            sheet.rules[rule].declarations.len() as int,
        );
        if rank(elem, sheet.rules[rule]) is Some && here is Some {
            if before is Some && applies_before(
                matched(elem, sheet, rule),
                matched(elem, sheet, before.unwrap().0),
            ) {
                before
            } else {
                Some((rule, here.unwrap()))
            }
        } else {
            before
        }
    }
}

/// The cascade of the stylesheet on the element: each property that a rule
/// that applies sets, with the value of the declaration that decides it.
pub open spec fn cascade(elem: ElementView, sheet: StylesheetView) -> Map<Seq<char>, ValueView> {
    Map::new(
        |name: Seq<char>| deciding(elem, sheet, name, sheet.rules.len() as int) is Some,
        |name: Seq<char>|
            {
                let place = deciding(elem, sheet, name, sheet.rules.len() as int).unwrap();
                sheet.rules[place.0].declarations[place.1].value
            },
    )
}

/// `last_setting` finds the last declaration of the name, if there is one.
pub proof fn lemma_last_setting(rule: RuleView, name: Seq<char>, upto: int)
    requires
        0 <= upto <= rule.declarations.len(),
    ensures
        match last_setting(rule, name, upto) {
            Some(d) => 0 <= d < upto && rule.declarations[d].name == name && forall|later: int|
                d < later < upto ==> (#[trigger] rule.declarations[later]).name != name,
            None => forall|d: int| 0 <= d < upto ==> (#[trigger] rule.declarations[d]).name != name,
        },
    decreases upto,
{
    if upto > 0 && rule.declarations[upto - 1].name != name {
        lemma_last_setting(rule, name, upto - 1);
    }
}

/// `deciding` finds the declaration to which every other declaration of the
/// name in the first `upto` rules yields, if one of them sets the name.
pub proof fn lemma_deciding(elem: ElementView, sheet: StylesheetView, name: Seq<char>, upto: int)
    requires
        0 <= upto <= sheet.rules.len(),
    ensures
        match deciding(elem, sheet, name, upto) {
            Some((rule, decl)) => {
                &&& rule < upto
                &&& declares(elem, sheet, name, rule, decl)
                &&& forall|r: int, d: int| #[trigger]
                    declares(elem, sheet, name, r, d) && r < upto ==> (r == rule && d == decl)
                        || yields_to(elem, sheet, r, d, rule, decl)
            },
            None => forall|r: int, d: int| #[trigger]
                declares(elem, sheet, name, r, d) ==> r >= upto,
        },
    decreases upto,
{
    if upto > 0 {
        let rule = upto - 1;
        lemma_deciding(elem, sheet, name, upto - 1);
        lemma_last_setting(sheet.rules[rule], name, sheet.rules[rule].declarations.len() as int);
    }
}

/// A property map is the cascade exactly when it has the properties that the
/// rules that apply set, each with the value of the declaration that decides
/// it: there is one such map.
pub proof fn lemma_cascade(
    elem: ElementView,
    sheet: StylesheetView,
    props: Map<Seq<char>, ValueView>,
)
    ensures
        cascaded(elem, sheet, props) <==> props == cascade(elem, sheet),
{
    let all = cascade(elem, sheet);
    let n = sheet.rules.len() as int;
    assert forall|name: Seq<char>| #[trigger]
        all.dom().contains(name) <==> exists|r: int, d: int|
            declares(elem, sheet, name, r, d) by {
        lemma_deciding(elem, sheet, name, n);
    }
    assert forall|name: Seq<char>, r: int, d: int| #[trigger]
        decides(elem, sheet, name, r, d) implies all.dom().contains(name) && all[name]
        == sheet.rules[r].declarations[d].value by {
        lemma_deciding(elem, sheet, name, n);
    }
    if cascaded(elem, sheet, props) {
        assert forall|name: Seq<char>| props.dom().contains(name) implies #[trigger] props[name]
            == all[name] by {
            lemma_deciding(elem, sheet, name, n);
            let place = deciding(elem, sheet, name, n).unwrap();
            assert(decides(elem, sheet, name, place.0, place.1));
        }
        assert(props =~= all);
    }
}

/// The declaration that decides a property gives the property its value.
pub proof fn lemma_decider_gives_value(
    elem: ElementView,
    sheet: StylesheetView,
    name: Seq<char>,
    rule: int,
    decl: int,
)
    requires
        decides(elem, sheet, name, rule, decl),
    ensures
        cascade(elem, sheet).dom().contains(name),
        cascade(elem, sheet)[name] == sheet.rules[rule].declarations[decl].value,
{
    lemma_cascade(elem, sheet, cascade(elem, sheet));
}

/// Specificity goes before source order. Where two rules that apply set the
/// same property and one applies at a higher specificity than the other,
/// the property has the value that the rule of higher specificity gives it
/// last, whichever of the two stands first in the stylesheet. This is said
/// of a property that no third rule decides: every declaration of it in
/// another rule yields to that of the rule of higher specificity.
pub proof fn lemma_specificity_beats_source_order(
    elem: ElementView,
    sheet: StylesheetView,
    name: Seq<char>,
    high: int,
    high_decl: int,
    low: int,
    low_decl: int,
)
    requires
        declares(elem, sheet, name, high, high_decl),
        declares(elem, sheet, name, low, low_decl),
        lower_specificity(
            rank(elem, sheet.rules[low]).unwrap(),
            rank(elem, sheet.rules[high]).unwrap(),
        ),
        forall|d: int| #[trigger] declares(elem, sheet, name, high, d) ==> d <= high_decl,
        forall|r: int, d: int| #[trigger]
            declares(elem, sheet, name, r, d) && r != high && r != low ==> yields_to(
                elem,
                sheet,
                r,
                d,
                high,
                high_decl,
            ),
    ensures
        cascade(elem, sheet).dom().contains(name),
        cascade(elem, sheet)[name] == sheet.rules[high].declarations[high_decl].value,
{
    assert(decides(elem, sheet, name, high, high_decl));
    lemma_decider_gives_value(elem, sheet, name, high, high_decl);
}

/// A rule that applies through a selector with a class goes before a rule
/// that applies through a selector with a tag name alone: where both set
/// the same property, and every declaration of it in a third rule yields,
/// the property has the value that the class rule gives it last, whichever
/// of the two rules stands first in the stylesheet.
pub proof fn lemma_class_rule_beats_tag_rule(
    elem: ElementView,
    sheet: StylesheetView,
    name: Seq<char>,
    class_rule: int,
    class_decl: int,
    tag_rule: int,
    tag_decl: int,
)
    requires
        declares(elem, sheet, name, class_rule, class_decl),
        declares(elem, sheet, name, tag_rule, tag_decl),
        rank(elem, sheet.rules[class_rule]).unwrap().1 > 0,
        rank(elem, sheet.rules[tag_rule]).unwrap().0 == 0,
        rank(elem, sheet.rules[tag_rule]).unwrap().1 == 0,
        forall|d: int| #[trigger] declares(elem, sheet, name, class_rule, d) ==> d <= class_decl,
        forall|r: int, d: int| #[trigger]
            declares(elem, sheet, name, r, d) && r != class_rule && r != tag_rule ==> yields_to(
                elem,
                sheet,
                r,
                d,
                class_rule,
                class_decl,
            ),
    ensures
        cascade(elem, sheet).dom().contains(name),
        cascade(elem, sheet)[name] == sheet.rules[class_rule].declarations[class_decl].value,
{
    lemma_specificity_beats_source_order(
        elem,
        sheet,
        name,
        class_rule,
        class_decl,
        tag_rule,
        tag_decl,
    );
}

/// Among rules of the same specificity the later one goes first. Where two
/// rules that apply at the same specificity set the same property, and
/// every declaration of it in a third rule yields, the property has the
/// value that the rule that stands later in the stylesheet gives it last.
pub proof fn lemma_later_rule_beats_earlier(
    elem: ElementView,
    sheet: StylesheetView,
    name: Seq<char>,
    earlier: int,
    earlier_decl: int,
    later: int,
    later_decl: int,
)
    requires
        declares(elem, sheet, name, earlier, earlier_decl),
        declares(elem, sheet, name, later, later_decl),
        rank(elem, sheet.rules[earlier]) == rank(elem, sheet.rules[later]),
        earlier < later,
        forall|d: int| #[trigger] declares(elem, sheet, name, later, d) ==> d <= later_decl,
        forall|r: int, d: int| #[trigger]
            declares(elem, sheet, name, r, d) && r != earlier && r != later ==> yields_to(
                elem,
                sheet,
                r,
                d,
                later,
                later_decl,
            ),
    ensures
        cascade(elem, sheet).dom().contains(name),
        cascade(elem, sheet)[name] == sheet.rules[later].declarations[later_decl].value,
{
    assert(decides(elem, sheet, name, later, later_decl));
    lemma_decider_gives_value(elem, sheet, name, later, later_decl);
}

/// A declaration never decides a property that a rule of higher specificity
/// also sets, nor one that a later rule of the same specificity also sets.
pub proof fn lemma_yielding_declaration_does_not_decide(
    elem: ElementView,
    sheet: StylesheetView,
    name: Seq<char>,
    rule: int,
    decl: int,
    other: int,
    other_decl: int,
)
    requires
        declares(elem, sheet, name, rule, decl),
        declares(elem, sheet, name, other, other_decl),
        yields_to(elem, sheet, rule, decl, other, other_decl),
    ensures
        !decides(elem, sheet, name, rule, decl),
{
}

} // verus!
