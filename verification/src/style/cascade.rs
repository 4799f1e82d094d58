//! The cascade: the declarations of the rules that apply to an element,
//! merged into one property map.

use crate::css::{views, DeclarationView, Stylesheet, StylesheetView, Value, ValueView};
use crate::dom::{ElementData, ElementView};
use crate::style::matching::{
    applies_before, is_ranking, lemma_matching, lemma_ranking_is_stable, matching_rules, rank,
    rank_rules, spec_matching, MatchedView,
};
use crate::style::precedence::{cascade, cascaded, declares, decides, lemma_cascade, matched};
use vstd::hash_map::StringHashMap;
use vstd::prelude::*;

verus! {

/// The specified values of a node: a value for each property name.
pub type PropertyMap = StringHashMap<Value>;

/// A property map as the contracts see it: from name to the view of the
/// value.
pub open spec fn properties(values: PropertyMap) -> Map<Seq<char>, ValueView> {
    values@.map_values(|value: Value| value@)
}

/// Whether `(i, d)` is a place: declaration `d` of the rule that stands at
/// index `i` of the order.
spec fn is_place(sheet: StylesheetView, order: Seq<MatchedView>, i: int, d: int) -> bool {
    &&& 0 <= i < order.len()
    &&& 0 <= order[i].rule < sheet.rules.len()
    &&& 0 <= d < sheet.rules[order[i].rule].declarations.len()
}

/// The declaration at a place.
spec fn at_place(
    sheet: StylesheetView,
    order: Seq<MatchedView>,
    i: int,
    d: int,
) -> DeclarationView {
    sheet.rules[order[i].rule].declarations[d]
}

/// Whether place `(i, d)` comes before place `(k, j)`.
spec fn reached(k: int, j: int, i: int, d: int) -> bool {
    i < k || (i == k && d < j)
}

/// The state of the map when the declarations at the places before `(k, j)`
/// have been written: `writer` names, for each property, the last place that
/// wrote it.
spec fn written(
    sheet: StylesheetView,
    order: Seq<MatchedView>,
    k: int,
    j: int,
    props: Map<Seq<char>, ValueView>,
    writer: Map<Seq<char>, (int, int)>,
) -> bool {
    &&& props.dom() =~= writer.dom()
    &&& forall|name: Seq<char>| #[trigger]
        writer.dom().contains(name) ==> {
            &&& is_place(sheet, order, writer[name].0, writer[name].1)
            &&& reached(k, j, writer[name].0, writer[name].1)
            &&& at_place(sheet, order, writer[name].0, writer[name].1).name == name
            &&& props[name] == at_place(sheet, order, writer[name].0, writer[name].1).value
        }
    &&& forall|i: int, d: int| #[trigger]
        is_place(sheet, order, i, d) && reached(k, j, i, d) ==> {
            &&& writer.dom().contains(at_place(sheet, order, i, d).name)
            &&& !reached(
                i,
                d,
                writer[at_place(sheet, order, i, d).name].0,
                writer[at_place(sheet, order, i, d).name].1,
            )
        }
}

/// A ranking holds the rules that apply, each once, and a rule that stands
/// earlier in it applies before one that stands later.
proof fn lemma_ranking(elem: ElementView, sheet: StylesheetView, order: Seq<MatchedView>)
    requires
        is_ranking(order, spec_matching(elem, sheet, sheet.rules.len() as int)),
    ensures
        forall|m: MatchedView| #[trigger]
            order.contains(m) <==> 0 <= m.rule < sheet.rules.len() && rank(
                elem,
                sheet.rules[m.rule],
            ) == Some(m.specificity),
        forall|i: int, j: int|
            0 <= i < j < order.len() ==> applies_before(#[trigger] order[i], #[trigger] order[j]),
{
    lemma_matching(elem, sheet, sheet.rules.len() as int);
    lemma_ranking_is_stable(order, spec_matching(elem, sheet, sheet.rules.len() as int));
}

/// When every place has been written, the map is the cascade.
proof fn lemma_written_is_cascaded(
    elem: ElementView,
    sheet: StylesheetView,
    order: Seq<MatchedView>,
    props: Map<Seq<char>, ValueView>,
    writer: Map<Seq<char>, (int, int)>,
)
    requires
        is_ranking(order, spec_matching(elem, sheet, sheet.rules.len() as int)),
        written(sheet, order, order.len() as int, 0, props, writer),
    ensures
        cascaded(elem, sheet, props),
{
    lemma_ranking(elem, sheet, order);
    assert forall|name: Seq<char>| #[trigger]
        props.dom().contains(name) <==> exists|r: int, d: int|
            declares(elem, sheet, name, r, d) by {
        if props.dom().contains(name) {
            let i = writer[name].0;
            let d = writer[name].1;
            assert(order.contains(order[i]));
            assert(declares(elem, sheet, name, order[i].rule, d));
        }
        if exists|r: int, d: int| declares(elem, sheet, name, r, d) {
            let (r, d) = choose|r: int, d: int| declares(elem, sheet, name, r, d);
            let m = matched(elem, sheet, r);
            assert(order.contains(m));
            let i = choose|i: int| 0 <= i < order.len() && order[i] == m;
            assert(is_place(sheet, order, i, d) && reached(order.len() as int, 0, i, d));
        }
    }
    assert forall|name: Seq<char>, r: int, d: int| #[trigger]
        decides(elem, sheet, name, r, d) implies props.dom().contains(name) && props[name]
        == sheet.rules[r].declarations[d].value by {
        let m = matched(elem, sheet, r);
        assert(order.contains(m));
        let i = choose|i: int| 0 <= i < order.len() && order[i] == m;
        assert(is_place(sheet, order, i, d) && reached(order.len() as int, 0, i, d));
        let i2 = writer[name].0;
        let d2 = writer[name].1;
        let r2 = order[i2].rule;
        assert(order.contains(order[i2]));
        assert(declares(elem, sheet, name, r2, d2));
    }
}

/// The specified values of an element: every declaration of every rule that
/// applies to it is written into one map, rules of lower specificity first
/// and rules of the same specificity in source order, and a later write
/// replaces an earlier one of the same property.
pub fn specified_values(elem: &ElementData, stylesheet: &Stylesheet) -> (values: PropertyMap)
    ensures
        properties(values) == cascade(elem@, stylesheet@),
{
    let mut values: PropertyMap = StringHashMap::new();
    let mut rules = matching_rules(elem, stylesheet);
    rank_rules(&mut rules);
    let ghost order = views(rules@);
    let ghost sheet = stylesheet@;
    let ghost mut writer: Map<Seq<char>, (int, int)> = Map::empty();
    proof {
        lemma_ranking(elem@, sheet, order);
        assert forall|i: int| 0 <= i < order.len() implies 0 <= (#[trigger] order[i]).rule
            < sheet.rules.len() by {
            assert(order.contains(order[i]));
        }
    }
    let mut k: usize = 0;
    while k < rules.len()
        invariant
            k <= rules@.len(),
            order == views(rules@),
            sheet == stylesheet@,
            forall|i: int|
                0 <= i < order.len() ==> 0 <= (#[trigger] order[i]).rule < sheet.rules.len(),
            written(sheet, order, k as int, 0, properties(values), writer),
        decreases rules@.len() - k,
    {
        let index: usize = rules[k].rule;
        assert(order[k as int].rule == index);
        let rule = &stylesheet.rules[index];
        let mut j: usize = 0;
        while j < rule.declarations.len()
            invariant
                k < rules@.len(),
                order == views(rules@),
                sheet == stylesheet@,
                order[k as int].rule == index,
                index < stylesheet.rules@.len(),
                *rule == stylesheet.rules@[index as int],
                j <= rule.declarations@.len(),
                written(sheet, order, k as int, j as int, properties(values), writer),
            decreases rule.declarations@.len() - j,
        {
            let declaration = &rule.declarations[j];
            let name = declaration.name.clone();
            let value = declaration.value.clone();
            values.insert(name, value);
            proof {
                writer = writer.insert(declaration@.name, (k as int, j as int));
            }
            j += 1;
        }
        k += 1;
    }
    proof {
        lemma_written_is_cascaded(elem@, sheet, order, properties(values), writer);
        lemma_cascade(elem@, sheet, properties(values));
    }
    values
}

} // verus!
