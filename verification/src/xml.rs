//! XML documents as a flat list of nodes in document order, and the
//! element navigation the SMD reader needs.

use vstd::prelude::*;
use crate::text::{chars_eq, chars_eq_str, chars_of};

verus! {

/// One attribute of an element.
pub struct XmlAttr {
    pub namespace: Option<String>,
    pub name: String,
    pub value: String,
}

/// One node of a parsed document, as `roxmltree` gives it.
pub struct XmlNode {
    /// Node id (`roxmltree::NodeId::get`).
    pub id: u32,
    /// Id of the parent node, if any (`Node::parent`).
    pub parent: Option<u32>,
    /// Whether the node is an element (`Node::is_element`).
    pub element: bool,
    /// Local tag name (`Node::tag_name().name()`).
    pub tag: String,
    /// Attributes in document order (`Node::attributes`).
    pub attributes: Vec<XmlAttr>,
    /// `Node::text`: for an element, the text of its first child when that is text.
    pub text: Option<String>,
}

pub struct XmlAttrV {
    pub namespace: Option<Seq<char>>,
    pub name: Seq<char>,
    pub value: Seq<char>,
}

pub struct XmlNodeV {
    pub id: u32,
    pub parent: Option<u32>,
    pub element: bool,
    pub tag: Seq<char>,
    pub attributes: Seq<XmlAttrV>,
    pub text: Option<Seq<char>>,
}

pub open spec fn opt_view(s: Option<String>) -> Option<Seq<char>> {
    match s {
        Some(t) => Some(t@),
        None => None,
    }
}

impl View for XmlAttr {
    type V = XmlAttrV;

    open spec fn view(&self) -> XmlAttrV {
        XmlAttrV { namespace: opt_view(self.namespace), name: self.name@, value: self.value@ }
    }
}

impl View for XmlNode {
    type V = XmlNodeV;

    open spec fn view(&self) -> XmlNodeV {
        XmlNodeV {
            id: self.id,
            parent: self.parent,
            element: self.element,
            tag: self.tag@,
            attributes: Seq::new(self.attributes@.len(), |i: int| self.attributes@[i]@),
            text: opt_view(self.text),
        }
    }
}

pub open spec fn nodes_view(v: Seq<XmlNode>) -> Seq<XmlNodeV> {
    Seq::new(v.len(), |i: int| v[i]@)
}

/// What `roxmltree::Document::parse` makes of `text`: the nodes of the
/// document in document order (the order of `Document::descendants`), or,
/// when it rejects the text, the `Display` text of its error. A function of
/// the text alone.
pub uninterp spec fn xml_document_nodes(text: Seq<char>) -> Result<Seq<XmlNodeV>, Seq<char>>;

/// `roxmltree::Document::parse`, with every node of `Document::descendants`
/// copied one for one into an [`XmlNode`], and an error turned into its
/// `Display` text. Both outcomes are named by [`xml_document_nodes`].
#[verifier::external_body]
pub(crate) fn parse_xml(text: &str) -> (r: Result<Vec<XmlNode>, String>)
    ensures
        match r {
            Ok(v) => xml_document_nodes(text@) == Ok::<Seq<XmlNodeV>, Seq<char>>(nodes_view(v@)),
            Err(e) => xml_document_nodes(text@) == Err::<Seq<XmlNodeV>, Seq<char>>(e@),
        },
{
    match roxmltree::Document::parse(text) {
        Ok(doc) => Ok(doc.descendants().map(|n| XmlNode {
            id: n.id().get(), parent: n.parent().map(|p| p.id().get()),
            element: n.is_element(), tag: n.tag_name().name().to_string(),
            attributes: n.attributes().map(|a| XmlAttr { namespace: a.namespace().map(String::from),
                name: a.name().to_string(), value: a.value().to_string() }).collect(),
            text: n.text().map(String::from),
        }).collect()),
        Err(e) => Err(e.to_string()),
    }
}

/// Index of the first element node: the document's root element.
pub open spec fn root_index_from(ns: Seq<XmlNodeV>, from: int) -> Option<int>
    decreases ns.len() - from,
{
    if from < 0 || from >= ns.len() {
        None
    } else if ns[from].element {
        Some(from)
    } else {
        root_index_from(ns, from + 1)
    }
}

pub open spec fn root_index(ns: Seq<XmlNodeV>) -> Option<int> {
    root_index_from(ns, 0)
}

/// `ns[k]` is an element child of `ns[p]`.
pub open spec fn is_child_elem(ns: Seq<XmlNodeV>, p: int, k: int) -> bool {
    &&& 0 <= p < k < ns.len()
    &&& ns[k].element
    &&& ns[k].parent == Some(ns[p].id)
}

/// Indices, in order, of the element children of `ns[p]` among `ns[p+1..n]`.
pub open spec fn child_elems_upto(ns: Seq<XmlNodeV>, p: int, n: int) -> Seq<int>
    decreases n,
{
    if n <= p + 1 || n <= 0 {
        Seq::empty()
    } else if is_child_elem(ns, p, n - 1) {
        child_elems_upto(ns, p, n - 1).push(n - 1)
    } else {
        child_elems_upto(ns, p, n - 1)
    }
}

/// Indices, in document order, of the element children of `ns[p]`.
pub open spec fn child_elems(ns: Seq<XmlNodeV>, p: int) -> Seq<int> {
    child_elems_upto(ns, p, ns.len() as int)
}

pub proof fn lemma_child_elems_upto(ns: Seq<XmlNodeV>, p: int, n: int)
    requires
        0 <= p,
        n <= ns.len(),
    ensures
        forall|j: int| 0 <= j < child_elems_upto(ns, p, n).len() ==> is_child_elem(ns, p, #[trigger] child_elems_upto(ns, p, n)[j]),
    decreases n,
{
    if !(n <= p + 1 || n <= 0) {
        lemma_child_elems_upto(ns, p, n - 1);
        let s = child_elems_upto(ns, p, n - 1);
        if is_child_elem(ns, p, n - 1) {
            assert forall|j: int| 0 <= j < child_elems_upto(ns, p, n).len() implies is_child_elem(ns, p, #[trigger] child_elems_upto(ns, p, n)[j]) by {
                if j < s.len() {
                    assert(child_elems_upto(ns, p, n)[j] == s[j]);
                }
            }
        }
    }
}

/// First index among `idxs` whose node has tag `tag`.
pub open spec fn find_tag(ns: Seq<XmlNodeV>, idxs: Seq<int>, tag: Seq<char>) -> Option<int>
    decreases idxs.len(),
{
    if idxs.len() == 0 {
        None
    } else if 0 <= idxs[0] < ns.len() && ns[idxs[0]].tag == tag {
        Some(idxs[0])
    } else {
        find_tag(ns, idxs.drop_first(), tag)
    }
}

/// First element child of `ns[p]` named `tag`.
pub open spec fn child_named(ns: Seq<XmlNodeV>, p: int, tag: Seq<char>) -> Option<int> {
    find_tag(ns, child_elems(ns, p), tag)
}

/// Value of the first attribute without namespace named `name` (`Node::attribute`).
pub open spec fn attr_value(attrs: Seq<XmlAttrV>, name: Seq<char>) -> Option<Seq<char>>
    decreases attrs.len(),
{
    if attrs.len() == 0 {
        None
    } else if attrs[0].namespace is None && attrs[0].name == name {
        Some(attrs[0].value)
    } else {
        attr_value(attrs.drop_first(), name)
    }
}

/// Index of the root element.
pub fn root_element(ns: &Vec<XmlNode>) -> (r: Option<usize>)
    ensures
        match r {
            Some(i) => root_index(nodes_view(ns@)) == Some(i as int) && i < ns@.len(),
            None => root_index(nodes_view(ns@)) is None,
        },
{
    let ghost v = nodes_view(ns@);
    let mut i: usize = 0;
    while i < ns.len()
        invariant
            i <= ns@.len(),
            v == nodes_view(ns@),
            root_index(v) == root_index_from(v, i as int),
        decreases ns.len() - i,
    {
        if ns[i].element {
            return Some(i);
        }
        i += 1;
    }
    None
}

/// Indices of the element children of `ns[p]`, in document order.
pub fn child_elements(ns: &Vec<XmlNode>, p: usize) -> (r: Vec<usize>)
    requires
        p < ns@.len(),
    ensures
        r@.len() == child_elems(nodes_view(ns@), p as int).len(),
        forall|j: int| 0 <= j < r@.len() ==> r@[j] as int == #[trigger] child_elems(nodes_view(ns@), p as int)[j],
        forall|j: int| 0 <= j < r@.len() ==> p < #[trigger] r@[j] < ns@.len(),
{
    let ghost v = nodes_view(ns@);
    let mut r: Vec<usize> = Vec::new();
    let len = ns.len();
    let mut n: usize = p + 1;
    let pid = ns[p].id;
    assert(child_elems_upto(v, p as int, n as int) =~= Seq::<int>::empty());
    while n < ns.len()
        invariant
            p < n <= ns@.len(),
            v == nodes_view(ns@),
            pid == ns@[p as int].id,
            r@.len() == child_elems_upto(v, p as int, n as int).len(),
            forall|j: int| 0 <= j < r@.len() ==> r@[j] as int == #[trigger] child_elems_upto(v, p as int, n as int)[j],
            forall|j: int| 0 <= j < r@.len() ==> p < #[trigger] r@[j] < n,
        decreases ns.len() - n,
    {
        let is_child = ns[n].element && match ns[n].parent {
            Some(q) => q == pid,
            None => false,
        };
        assert(is_child == is_child_elem(v, p as int, n as int));
        if is_child {
            r.push(n);
        }
        n += 1;
    }
    r
}

/// First of the given element indices whose tag is `tag`.
pub fn find_tag_in(ns: &Vec<XmlNode>, idxs: &Vec<usize>, tag: &str) -> (r: Option<usize>)
    requires
        forall|j: int| 0 <= j < idxs@.len() ==> #[trigger] idxs@[j] < ns@.len(),
    ensures
        match r {
            Some(i) => find_tag(nodes_view(ns@), Seq::new(idxs@.len(), |j: int| idxs@[j] as int), tag@) == Some(i as int) && i < ns@.len(),
            None => find_tag(nodes_view(ns@), Seq::new(idxs@.len(), |j: int| idxs@[j] as int), tag@) is None,
        },
{
    let ghost all = Seq::new(idxs@.len(), |j: int| idxs@[j] as int);
    let ghost v = nodes_view(ns@);
    let want = chars_of(tag);
    let mut i: usize = 0;
    assert(all.skip(0) =~= all);
    while i < idxs.len()
        invariant
            i <= idxs@.len(),
            all == Seq::new(idxs@.len(), |j: int| idxs@[j] as int),
            v == nodes_view(ns@),
            want@ == tag@,
            forall|j: int| 0 <= j < idxs@.len() ==> #[trigger] idxs@[j] < ns@.len(),
            find_tag(v, all, tag@) == find_tag(v, all.skip(i as int), tag@),
        decreases idxs.len() - i,
    {
        let k = idxs[i];
        let t = chars_of(ns[k].tag.as_str());
        assert(all.skip(i as int)[0] == k as int);
        assert(all.skip(i as int).drop_first() =~= all.skip(i + 1));
        if chars_eq(&t, &want) {
            return Some(k);
        }
        i += 1;
    }
    None
}

/// First element child of `ns[p]` named `tag`.
pub fn child_named_in(ns: &Vec<XmlNode>, p: usize, tag: &str) -> (r: Option<usize>)
    requires
        p < ns@.len(),
    ensures
        match r {
            Some(i) => child_named(nodes_view(ns@), p as int, tag@) == Some(i as int) && p < i < ns@.len(),
            None => child_named(nodes_view(ns@), p as int, tag@) is None,
        },
{
    let kids = child_elements(ns, p);
    assert(Seq::new(kids@.len(), |j: int| kids@[j] as int) =~= child_elems(nodes_view(ns@), p as int));
    let r = find_tag_in(ns, &kids, tag);
    proof {
        if let Some(i) = r {
            lemma_find_tag_member(nodes_view(ns@), Seq::new(kids@.len(), |j: int| kids@[j] as int), tag@);
        }
    }
    r
}

pub proof fn lemma_find_tag_member(ns: Seq<XmlNodeV>, idxs: Seq<int>, tag: Seq<char>)
    ensures
        find_tag(ns, idxs, tag) matches Some(i) ==> idxs.contains(i),
    decreases idxs.len(),
{
    if idxs.len() > 0 && !(0 <= idxs[0] < ns.len() && ns[idxs[0]].tag == tag) {
        lemma_find_tag_member(ns, idxs.drop_first(), tag);
        if let Some(i) = find_tag(ns, idxs.drop_first(), tag) {
            let k = choose|k: int| 0 <= k < idxs.drop_first().len() && idxs.drop_first()[k] == i;
            assert(idxs[k + 1] == i);
        }
    } else if idxs.len() > 0 {
        assert(idxs[0] == idxs[0]);
    }
}

/// `Node::attribute(name)`.
pub fn attribute(node: &XmlNode, name: &str) -> (r: Option<String>)
    ensures
        opt_view(r) == attr_value(node@.attributes, name@),
{
    let ghost all = node@.attributes;
    let want = chars_of(name);
    let mut i: usize = 0;
    assert(all.skip(0) =~= all);
    while i < node.attributes.len()
        invariant
            i <= node.attributes@.len(),
            all == node@.attributes,
            want@ == name@,
            attr_value(all, name@) == attr_value(all.skip(i as int), name@),
        decreases node.attributes.len() - i,
    {
        let a = &node.attributes[i];
        assert(all.skip(i as int)[0] == a@);
        assert(all.skip(i as int).drop_first() =~= all.skip(i + 1));
        let n = chars_of(a.name.as_str());
        if a.namespace.is_none() && chars_eq(&n, &want) {
            return Some(a.value.clone());
        }
        i += 1;
    }
    None
}

} // verus!
