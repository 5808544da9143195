//! Body tree of a SECS-II item (no item names).

use vstd::prelude::*;
use crate::body_tree::{BodyItem, BodyNode, nodes, lemma_nodes, lemma_nodes_push};
use crate::item_text::{utf8_lossy, lossy_text};
use crate::secs2::{Item, Secs2, models, lemma_models, lemma_models_take};
use crate::sml_write::{type_word, values_text, type_word_of, values_text_of};
use crate::text::{chars_of, string_of};
use crate::ids::new_id;

verus! {

/// A node with an empty id and name.
pub open spec fn plain_node(ty: Seq<char>, value: Seq<char>, children: Seq<BodyNode>) -> BodyNode {
    BodyNode { id: Seq::empty(), item_type: ty, name: Seq::empty(), value, children }
}

/// The body node that shows `item` (ids left empty).
pub open spec fn item_node(item: Item) -> BodyNode
    decreases item, 0int,
{
    match item {
        Item::Empty => plain_node("L"@, Seq::empty(), Seq::empty()),
        Item::List(v) => plain_node("L"@, Seq::empty(), item_nodes(v)),
        Item::Ascii(s) => plain_node("A"@, s, Seq::empty()),
        Item::Jis8(b) => plain_node("A"@, utf8_lossy(b), Seq::empty()),
        Item::Unicode(b) => plain_node("A"@, utf8_lossy(b), Seq::empty()),
        _ => plain_node(type_word(item), values_text(item), Seq::empty()),
    }
}

pub open spec fn item_nodes(v: Seq<Item>) -> Seq<BodyNode>
    decreases v, 1int,
{
    if v.len() == 0 {
        Seq::empty()
    } else {
        item_nodes(v.drop_last()).push(item_node(v.last()))
    }
}

/// The node with every id in it emptied.
pub open spec fn erase_ids(n: BodyNode) -> BodyNode
    decreases n, 0int,
{
    BodyNode { id: Seq::empty(), children: erase_ids_all(n.children), ..n }
}

pub open spec fn erase_ids_all(s: Seq<BodyNode>) -> Seq<BodyNode>
    decreases s, 1int,
{
    if s.len() == 0 {
        Seq::empty()
    } else {
        erase_ids_all(s.drop_last()).push(erase_ids(s.last()))
    }
}

/// The body tree that shows `item`: nothing for the empty item.
pub open spec fn item_tree(item: Item) -> Seq<BodyNode> {
    if item == Item::Empty {
        Seq::empty()
    } else {
        seq![item_node(item)]
    }
}

/// Body tree of an item, with fresh ids.
pub fn secs2_to_body_tree(item: &Secs2) -> (r: Vec<BodyItem>)
    ensures
        erase_ids_all(nodes(r@)) == item_tree(item@),
{
    let mut r: Vec<BodyItem> = Vec::new();
    if item.is_empty_item() {
        return r;
    }
    let n = secs2_to_item(item);
    r.push(n);
    proof {
        lemma_nodes_push(Seq::empty(), n);
        assert(Seq::<BodyItem>::empty().push(n) =~= r@);
        assert(nodes(Seq::<BodyItem>::empty()) =~= Seq::<BodyNode>::empty());
        assert(nodes(r@) =~= seq![n@]);
        assert(seq![n@].drop_last() =~= Seq::<BodyNode>::empty());
        assert(erase_ids_all(Seq::<BodyNode>::empty()) =~= Seq::<BodyNode>::empty());
        assert(erase_ids_all(seq![n@]) =~= seq![erase_ids(n@)]);
    }
    r
}

fn leaf(ty: Vec<char>, value: Vec<char>) -> (r: BodyItem)
    ensures
        erase_ids(r@) == plain_node(ty@, value@, Seq::empty()),
{
    let r = BodyItem {
        id: new_id(),
        item_type: string_of(&ty),
        name: String::new(),
        value: string_of(&value),
        children: Vec::new(),
    };
    assert(nodes(r.children@) =~= Seq::<BodyNode>::empty());
    assert(erase_ids_all(Seq::<BodyNode>::empty()) =~= Seq::<BodyNode>::empty());
    r
}

/// Body node of one item.
pub fn secs2_to_item(item: &Secs2) -> (r: BodyItem)
    ensures
        erase_ids(r@) == item_node(item@),
    decreases *item,
{
    match item {
        Secs2::Empty => leaf(chars_of("L"), Vec::new()),
        Secs2::List(v) => {
            proof {
                lemma_models(v@);
            }
            let kids = secs2_to_items(v);
            let r = BodyItem {
                id: new_id(),
                item_type: String::from_str("L"),
                name: String::new(),
                value: String::new(),
                children: kids,
            };
            r
        },
        Secs2::Ascii(s) => leaf(chars_of("A"), chars_of(s.as_str())),
        Secs2::Jis8(b) => {
            let s = lossy_text(b);
            leaf(chars_of("A"), chars_of(s.as_str()))
        },
        Secs2::Unicode(b) => {
            let s = lossy_text(b);
            leaf(chars_of("A"), chars_of(s.as_str()))
        },
        _ => leaf(type_word_of(item), values_text_of(item)),
    }
}

fn secs2_to_items(v: &Vec<Secs2>) -> (r: Vec<BodyItem>)
    ensures
        erase_ids_all(nodes(r@)) == item_nodes(models(v@)),
    decreases v@,
{
    let mut r: Vec<BodyItem> = Vec::new();
    let mut i: usize = 0;
    while i < v.len()
        invariant
            i <= v@.len(),
            erase_ids_all(nodes(r@)) == item_nodes(models(v@.take(i as int))),
        decreases v.len() - i,
    {
        let n = secs2_to_item(&v[i]);
        let ghost prev = r@;
        r.push(n);
        proof {
            lemma_nodes_push(prev, n);
            assert(nodes(prev).push(n@).drop_last() =~= nodes(prev));
            lemma_models_take(v@, i as int);
            assert(models(v@.take(i as int)).push(v@[i as int]@).drop_last() =~= models(v@.take(i as int)));
        }
        i += 1;
    }
    assert(v@.take(v@.len() as int) =~= v@);
    r
}

/// What a body node stands for does not depend on ids.
pub proof fn lemma_node_item_erase(n: BodyNode)
    ensures
        crate::body_tree::node_item(erase_ids(n)) == crate::body_tree::node_item(n),
    decreases n, 0int,
{
    lemma_node_items_erase(n.children);
}

pub proof fn lemma_node_items_erase(s: Seq<BodyNode>)
    ensures
        crate::body_tree::node_items(erase_ids_all(s)) == crate::body_tree::node_items(s),
        erase_ids_all(s).len() == s.len(),
    decreases s, 1int,
{
    if s.len() > 0 {
        lemma_node_items_erase(s.drop_last());
        lemma_node_item_erase(s.last());
        assert(erase_ids_all(s).drop_last() =~= erase_ids_all(s.drop_last()));
    }
}

pub proof fn lemma_tree_item_erase(s: Seq<BodyNode>)
    ensures
        crate::body_tree::tree_item(erase_ids_all(s)) == crate::body_tree::tree_item(s),
{
    lemma_node_items_erase(s);
    if s.len() == 1 {
        assert(erase_ids_all(s) =~= seq![erase_ids(s[0])]) by {
            assert(s.drop_last() =~= Seq::<BodyNode>::empty());
        }
        lemma_node_item_erase(s[0]);
    }
}

} // verus!
