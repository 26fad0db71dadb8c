//! Rendering of a value tree to markup text.
//!
//! A list that starts with a symbol is an element: the symbol names the tag,
//! an attribute list may follow, and the remaining items are children.
//! Text is emitted as it stands; nothing is escaped.

use vstd::prelude::*;
use crate::text::{decimal, push_decimal};
use crate::value::{lemma_view_items, views, Value, ValueView};
use vstd::string::StringExecFns;

verus! {

/// The markup that a value tree renders to.
pub open spec fn markup(v: ValueView) -> Seq<char>
    decreases v,
{
    match v {
        ValueView::String(s) => s,
        ValueView::Symbol(s) => s,
        ValueView::Float(s) => s,
        ValueView::Int(n) => decimal(n),
        ValueView::Bool(b) => if b {
            "true"@
        } else {
            "false"@
        },
        ValueView::Vector(items) => markup_all(items),
        ValueView::List(items) => if items.len() == 0 {
            Seq::empty()
        } else {
            match items[0] {
                ValueView::Symbol(tag) => {
                    let first_child = first_child_index(items);
                    "<"@ + tag + attrs_markup(attrs_of(items)) + ">"@ + markup_all(
                        items.skip(first_child),
                    ) + "</"@ + tag + ">"@
                },
                _ => markup_all(items),
            }
        },
        ValueView::Null => Seq::empty(),
        ValueView::Hash(_) => Seq::empty(),
    }
}

/// The markup of each item, concatenated in order.
pub open spec fn markup_all(items: Seq<ValueView>) -> Seq<char>
    decreases items,
{
    if items.len() == 0 {
        Seq::empty()
    } else {
        markup_all(items.drop_last()) + markup(items.last())
    }
}

/// Whether `v` has the shape of an attribute list: a list whose members are
/// all two-element lists. The empty list has that shape.
pub open spec fn is_attr_shaped(v: ValueView) -> bool {
    v matches ValueView::List(pairs) && all_pairs(pairs)
}

/// Whether every member of `pairs` is a list of exactly two items.
pub open spec fn all_pairs(pairs: Seq<ValueView>) -> bool {
    forall|i: int| 0 <= i < pairs.len() ==> is_pair(#[trigger] pairs[i])
}

/// Whether `v` is a list of exactly two items.
pub open spec fn is_pair(v: ValueView) -> bool {
    v matches ValueView::List(slots) && slots.len() == 2
}

/// Whether the element `items` (tag first) carries an attribute list.
pub open spec fn has_attrs(items: Seq<ValueView>) -> bool {
    items.len() > 1 && is_attr_shaped(items[1])
}

/// The attribute pairs of the element `items`; none where it carries no attribute list.
pub open spec fn attrs_of(items: Seq<ValueView>) -> Seq<ValueView> {
    if has_attrs(items) {
        items[1]->List_0
    } else {
        Seq::empty()
    }
}

/// The index of the first child of the element `items`.
pub open spec fn first_child_index(items: Seq<ValueView>) -> int {
    if has_attrs(items) {
        2
    } else {
        1
    }
}

/// The name of an attribute, where the key slot holds a symbol or a string.
pub open spec fn attr_key(v: ValueView) -> Option<Seq<char>> {
    match v {
        ValueView::Symbol(s) => Some(s),
        ValueView::String(s) => Some(s),
        _ => None,
    }
}

/// The text of an attribute's value, where the value slot holds a string, a
/// symbol or an integer.
pub open spec fn attr_value(v: ValueView) -> Option<Seq<char>> {
    match v {
        ValueView::String(s) => Some(s),
        ValueView::Symbol(s) => Some(s),
        ValueView::Int(n) => Some(decimal(n)),
        _ => None,
    }
}

/// The markup of one attribute pair, with its leading space; empty where the
/// pair is not a two-element list or a slot holds an unsupported variant.
pub open spec fn attr_markup(pair: ValueView) -> Seq<char> {
    match pair {
        ValueView::List(slots) => if slots.len() == 2 {
            match (attr_key(slots[0]), attr_value(slots[1])) {
                (Some(k), Some(v)) => " "@ + k + "=\""@ + v + "\""@,
                _ => Seq::empty(),
            }
        } else {
            Seq::empty()
        },
        _ => Seq::empty(),
    }
}

/// The markup of an attribute list: each supported pair as ` key="value"`.
pub open spec fn attrs_markup(pairs: Seq<ValueView>) -> Seq<char>
    decreases pairs.len(),
{
    if pairs.len() == 0 {
        Seq::empty()
    } else {
        attrs_markup(pairs.drop_last()) + attr_markup(pairs.last())
    }
}

/// Two values that stand for the same tree have the same markup: rendering
/// depends on nothing but the tree.
pub proof fn lemma_same_tree_same_markup(a: Value, b: Value)
    requires
        a@ == b@,
    ensures
        markup(a@) == markup(b@),
{
}

/// Every element is opened and closed by the same tag: a list that starts
/// with the symbol `tag` renders to `<tag`, its attributes, `>`, its
/// children's markup, and `</tag>`.
pub proof fn lemma_element_tags_match(items: Seq<ValueView>, tag: Seq<char>)
    requires
        items.len() > 0,
        items[0] == ValueView::Symbol(tag),
    ensures
        markup(ValueView::List(items)) == "<"@ + tag + attrs_markup(attrs_of(items)) + ">"@
            + markup_all(items.skip(first_child_index(items))) + "</"@ + tag + ">"@,
        ("<"@ + tag).is_prefix_of(markup(ValueView::List(items))),
        ("</"@ + tag + ">"@).is_suffix_of(markup(ValueView::List(items))),
{
    let open = "<"@ + tag;
    let close = "</"@ + tag + ">"@;
    let all = markup(ValueView::List(items));
    assert(all.subrange(0, open.len() as int) =~= open);
    assert(all.subrange(all.len() - close.len(), all.len() as int) =~= close);
}

/// A list that starts with the symbol `tag`, and whose second item (if any)
/// does not have the shape of an attribute list, renders to `<tag>`, the
/// markup of every item after the tag, and `</tag>`.
pub proof fn lemma_element_without_attrs(items: Seq<ValueView>, tag: Seq<char>)
    requires
        items.len() > 0,
        items[0] == ValueView::Symbol(tag),
        !has_attrs(items),
    ensures
        markup(ValueView::List(items)) == "<"@ + tag + ">"@ + markup_all(items.skip(1)) + "</"@
            + tag + ">"@,
        ("<"@ + tag + ">"@).is_prefix_of(markup(ValueView::List(items))),
        ("</"@ + tag + ">"@).is_suffix_of(markup(ValueView::List(items))),
{
    let open = "<"@ + tag + ">"@;
    let close = "</"@ + tag + ">"@;
    let inner = markup_all(items.skip(1));
    let all = markup(ValueView::List(items));
    assert(attrs_markup(attrs_of(items)) =~= Seq::<char>::empty());
    assert(all =~= open + inner + close);
    assert(all =~= "<"@ + tag + ">"@ + inner + "</"@ + tag + ">"@);
    assert(all.subrange(0, open.len() as int) =~= open);
    assert(all.subrange(all.len() - close.len(), all.len() as int) =~= close);
}

/// A vector renders as the list of the same items does, unless that list is
/// an element, that is, starts with a symbol.
pub proof fn lemma_vector_renders_as_plain_list(items: Seq<ValueView>)
    requires
        items.len() > 0 ==> !(items[0] is Symbol),
    ensures
        markup(ValueView::Vector(items)) == markup(ValueView::List(items)),
{
}

/// `markup_all` of a prefix extended by one item.
proof fn lemma_markup_all_step(items: Seq<ValueView>, from: int, i: int)
    requires
        0 <= from <= i < items.len(),
    ensures
        markup_all(items.subrange(from, i + 1)) == markup_all(items.subrange(from, i)) + markup(
            items[i],
        ),
{
    assert(items.subrange(from, i + 1).drop_last() =~= items.subrange(from, i));
}

/// Appends the markup of `items[from..]` to `out`.
fn render_items_into(out: &mut String, items: &Vec<Value>, from: usize)
    requires
        from <= items.len(),
    ensures
        final(out)@ == old(out)@ + markup_all(views(items@).skip(from as int)),
    decreases items, 0nat,
{
    let ghost all = views(items@);
    let mut i: usize = from;
    while i < items.len()
        invariant
            from <= i <= items.len(),
            all == views(items@),
            out@ == old(out)@ + markup_all(all.subrange(from as int, i as int)),
        decreases items.len() - i,
    {
        proof {
            lemma_markup_all_step(all, from as int, i as int);
        }
        render_into(out, &items[i]);
        i += 1;
    }
    assert(all.subrange(from as int, i as int) =~= all.skip(from as int));
}

/// Appends the markup of `v` to `out`.
fn render_into(out: &mut String, v: &Value)
    ensures
        final(out)@ == old(out)@ + markup(v@),
    decreases v, 1nat,
{
    match v {
        Value::String(s) => out.append(s.as_str()),
        Value::Symbol(s) => out.append(s.as_str()),
        Value::Float(s) => out.append(s.as_str()),
        Value::Int(n) => push_decimal(out, *n),
        Value::Bool(b) => {
            if *b {
                out.append("true");
            } else {
                out.append("false");
            }
        },
        Value::Vector(items) => {
            proof {
                lemma_view_items(*items);
                assert(views(items@).skip(0) =~= views(items@));
            }
            render_items_into(out, items, 0);
        },
        Value::List(items) => {
            proof {
                lemma_view_items(*items);
                assert(views(items@).skip(0) =~= views(items@));
            }
            if items.len() == 0 {
                assert(old(out)@ + Seq::<char>::empty() =~= old(out)@);
            } else {
                match &items[0] {
                    Value::Symbol(tag) => {
                        out.append("<");
                        out.append(tag.as_str());
                        let mut first_child: usize = 1;
                        if items.len() > 1 {
                            if let Value::List(pairs) = &items[1] {
                                proof {
                                    lemma_view_items(*pairs);
                                }
                                if is_attr_list(pairs) {
                                    let attrs = attrs_to_html(pairs);
                                    out.append(attrs.as_str());
                                    first_child = 2;
                                }
                            }
                        }
                        assert(first_child == first_child_index(views(items@)));
                        assert(out@ =~= old(out)@ + "<"@ + tag@ + attrs_markup(
                            attrs_of(views(items@)),
                        ));
                        out.append(">");
                        render_items_into(out, items, first_child);
                        out.append("</");
                        out.append(tag.as_str());
                        out.append(">");
                        assert(out@ =~= old(out)@ + markup(v@));
                    },
                    _ => {
                        render_items_into(out, items, 0);
                    },
                }
            }
        },
        Value::Null => {
            assert(old(out)@ + Seq::<char>::empty() =~= old(out)@);
        },
        Value::Hash(_) => {
            assert(old(out)@ + Seq::<char>::empty() =~= old(out)@);
        },
    }
}

/// Renders a value tree to markup text.
///
/// Strings, symbols and numbers give their text, unescaped; booleans give
/// `true` or `false`. A vector, and a list that does not start with a symbol,
/// give their items' markup in order. A list that starts with a symbol gives
/// an element, `<tag attrs>children</tag>`. Anything else gives no text.
pub fn sexp_to_html(sexp: &Value) -> (html: String)
    ensures
        html@ == markup(sexp@),
{
    let mut out = String::new();
    render_into(&mut out, sexp);
    assert(Seq::<char>::empty() + markup(sexp@) =~= markup(sexp@));
    out
}

/// Whether every item of `list` is a list of exactly two items, which makes
/// `list` an attribute list; vacuously so when it is empty.
pub fn is_attr_list(list: &Vec<Value>) -> (b: bool)
    ensures
        b == all_pairs(views(list@)),
{
    let mut i: usize = 0;
    while i < list.len()
        invariant
            i <= list.len(),
            forall|j: int| 0 <= j < i ==> is_pair(#[trigger] views(list@)[j]),
        decreases list.len() - i,
    {
        match &list[i] {
            Value::List(pair) => {
                proof {
                    lemma_view_items(*pair);
                }
                if pair.len() != 2 {
                    assert(!is_pair(views(list@)[i as int]));
                    return false;
                }
            },
            _ => {
                assert(!is_pair(views(list@)[i as int]));
                return false;
            },
        }
        i += 1;
    }
    true
}

/// Appends the text of an attribute key or value to `out`, if `v` is a scalar
/// that the slot accepts.
fn push_attr_slot(out: &mut String, v: &Value, is_key: bool) -> (ok: bool)
    ensures
        ok == (if is_key {
            attr_key(v@)
        } else {
            attr_value(v@)
        }) is Some,
        ok ==> final(out)@ == old(out)@ + (if is_key {
            attr_key(v@)
        } else {
            attr_value(v@)
        })->0,
        !ok ==> final(out)@ == old(out)@,
{
    match v {
        Value::String(s) => {
            out.append(s.as_str());
            true
        },
        Value::Symbol(s) => {
            out.append(s.as_str());
            true
        },
        Value::Int(n) => {
            if is_key {
                false
            } else {
                push_decimal(out, *n);
                true
            }
        },
        _ => false,
    }
}

/// The markup of an attribute list: ` key="value"` for each pair whose key is
/// a symbol or a string and whose value is a string, a symbol or an integer.
/// Other pairs are left out.
pub fn attrs_to_html(attrs: &Vec<Value>) -> (html: String)
    ensures
        html@ == attrs_markup(views(attrs@)),
{
    let mut out = String::new();
    let ghost all = views(attrs@);
    let mut i: usize = 0;
    while i < attrs.len()
        invariant
            i <= attrs.len(),
            all == views(attrs@),
            out@ == attrs_markup(all.take(i as int)),
        decreases attrs.len() - i,
    {
        proof {
            assert(all.take(i + 1).drop_last() =~= all.take(i as int));
        }
        if let Value::List(pair) = &attrs[i] {
            proof {
                lemma_view_items(*pair);
            }
            if pair.len() == 2 {
                let mut one = String::new();
                one.append(" ");
                let has_key = push_attr_slot(&mut one, &pair[0], true);
                if has_key {
                    one.append("=\"");
                    let has_value = push_attr_slot(&mut one, &pair[1], false);
                    if has_value {
                        one.append("\"");
                        assert(one@ =~= attr_markup(all[i as int]));
                        out.append(one.as_str());
                    }
                }
            }
        }
        assert(out@ =~= attrs_markup(all.take(i as int)) + attr_markup(all[i as int]));
        i += 1;
    }
    assert(all.take(i as int) =~= all);
    out
}

} // verus!
