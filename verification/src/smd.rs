//! Reading GWGEM-style `.SMD` files (`<SECSMessage>` XML) into prefabricated
//! messages, and SMD `<DataItem>` elements into body trees.

use vstd::prelude::*;
use crate::body_from_item::{erase_ids, erase_ids_all, lemma_tree_item_erase};
use crate::body_tree::{BodyItem, BodyNode, BodyError, nodes, lemma_nodes, lemma_nodes_push, tree_item, BodyFault};
use crate::catalog::{PrefabMessage, PrefabV, tree_sml};
use crate::numbers::{parse_i32_spec, parse_i32_chars};
use crate::secs2::Item;
use crate::sml_write::body_tree_to_sml;
use crate::text::{
    chars_of, chars_eq, chars_eq_str, contains_char, has_infix, contains_str, lower, to_lower,
    upper, to_upper, trim, trim_chars, trim_char, trim_char_text, replace_all, replace_text,
    string_of, sub_chars, push_all, is_alnum, all_alnum, copy_chars,
};
use crate::xml::{
    XmlNode, XmlNodeV, nodes_view, xml_document_nodes, parse_xml, root_index, root_element,
    child_elems, is_child_elem, lemma_child_elems_upto, child_named, child_named_in,
    child_elements, attr_value, attribute, opt_view,
};

verus! {

/// `Node::text` of a node, or nothing.
pub open spec fn text_or_empty(t: Option<Seq<char>>) -> Seq<char> {
    match t {
        Some(s) => s,
        None => Seq::empty(),
    }
}

/// Value text of an SMD `A`/`J` element: one pair of surrounding quotes
/// (after trimming) is dropped; otherwise only leading and trailing newlines go.
pub open spec fn decode_ascii(raw: Seq<char>) -> Seq<char> {
    let t = trim(raw);
    if t.len() >= 2 && t[0] == '"' && t.last() == '"' {
        t.subrange(1, t.len() - 1)
    } else {
        trim_char(raw, '\n')
    }
}

/// Body type of an SMD item element: `Boolean` is `BOOLEAN`, others upper-cased.
pub open spec fn elem_type(tag: Seq<char>) -> Seq<char> {
    if tag == "Boolean"@ {
        "BOOLEAN"@
    } else {
        upper(tag)
    }
}

/// The body node of the SMD item element `ns[i]` (ids left empty).
pub open spec fn elem_node(ns: Seq<XmlNodeV>, i: int) -> BodyNode
    decreases ns.len() - i, 1int, 0int,
{
    if !(0 <= i < ns.len()) {
        BodyNode { id: Seq::empty(), item_type: Seq::empty(), name: Seq::empty(), value: Seq::empty(), children: Seq::empty() }
    } else {
        let ty = elem_type(ns[i].tag);
        let name = text_or_empty(attr_value(ns[i].attributes, "ItemName"@));
        if ty == "L"@ {
            BodyNode {
                id: Seq::empty(),
                item_type: "L"@,
                name,
                value: Seq::empty(),
                children: elem_nodes(ns, child_elems(ns, i), i),
            }
        } else {
            let raw = text_or_empty(ns[i].text);
            let value = if ty == "A"@ || ty == "J"@ {
                decode_ascii(raw)
            } else {
                trim(raw)
            };
            BodyNode { id: Seq::empty(), item_type: ty, name, value, children: Seq::empty() }
        }
    }
}

/// Body nodes of the item elements `ns[idxs[..]]`, children of `ns[p]`.
pub open spec fn elem_nodes(ns: Seq<XmlNodeV>, idxs: Seq<int>, p: int) -> Seq<BodyNode>
    decreases ns.len() - p, 0int, idxs.len(),
{
    if idxs.len() == 0 {
        Seq::empty()
    } else if 0 <= p < idxs.last() < ns.len() {
        elem_nodes(ns, idxs.drop_last(), p).push(elem_node(ns, idxs.last()))
    } else {
        Seq::empty()
    }
}

/// The body tree of the SMD `<DataItem>` element `ns[di]`: one node per child element.
pub open spec fn data_tree(ns: Seq<XmlNodeV>, di: int) -> Seq<BodyNode> {
    elem_nodes(ns, child_elems(ns, di), di)
}

fn decode_ascii_text(raw: &[char]) -> (r: Vec<char>)
    ensures
        r@ == decode_ascii(raw@),
{
    let t = trim_chars(raw);
    if t.len() >= 2 && t[0] == '"' && t[t.len() - 1] == '"' {
        sub_chars(&t, 1, t.len() - 1)
    } else {
        trim_char_text(raw, '\n')
    }
}

/// Body node of one SMD item element, with fresh ids.
pub fn element_to_body_item(ns: &Vec<XmlNode>, i: usize) -> (r: BodyItem)
    requires
        i < ns@.len(),
    ensures
        erase_ids(r@) == elem_node(nodes_view(ns@), i as int),
    decreases ns@.len() - i,
{
    let ghost v = nodes_view(ns@);
    let node = &ns[i];
    let tag = chars_of(node.tag.as_str());
    let ty = if chars_eq_str(&tag, "Boolean") {
        chars_of("BOOLEAN")
    } else {
        to_upper(&tag)
    };
    let name = match attribute(node, "ItemName") {
        Some(s) => s,
        None => String::new(),
    };
    assert(name@ == text_or_empty(attr_value(v[i as int].attributes, "ItemName"@)));
    if chars_eq_str(&ty, "L") {
        let kids = child_elements(ns, i);
        let ghost ks = Seq::new(kids@.len(), |j: int| kids@[j] as int);
        assert(ks =~= child_elems(v, i as int));
        let mut children: Vec<BodyItem> = Vec::new();
        let mut j: usize = 0;
        assert(ks.take(0) =~= Seq::<int>::empty());
        while j < kids.len()
            invariant
                i < ns@.len(),
                v == nodes_view(ns@),
                j <= kids@.len(),
                ks == Seq::new(kids@.len(), |j: int| kids@[j] as int),
                forall|k: int| 0 <= k < kids@.len() ==> i < #[trigger] kids@[k] < ns@.len(),
                erase_ids_all(nodes(children@)) == elem_nodes(v, ks.take(j as int), i as int),
            decreases kids.len() - j,
        {
            let c = element_to_body_item(ns, kids[j]);
            let ghost prev = children@;
            children.push(c);
            proof {
                lemma_nodes_push(prev, c);
                assert(nodes(prev).push(c@).drop_last() =~= nodes(prev));
                assert(ks.take(j + 1).drop_last() =~= ks.take(j as int));
                assert(ks.take(j + 1).last() == kids@[j as int] as int);
            }
            j += 1;
        }
        assert(ks.take(kids@.len() as int) =~= ks);
        BodyItem {
            id: crate::ids::new_id(),
            item_type: String::from_str("L"),
            name,
            value: String::new(),
            children,
        }
    } else {
        let raw: Vec<char> = match &node.text {
            Some(t) => chars_of(t.as_str()),
            None => Vec::new(),
        };
        assert(raw@ == text_or_empty(v[i as int].text));
        let value = if chars_eq_str(&ty, "A") || chars_eq_str(&ty, "J") {
            decode_ascii_text(&raw)
        } else {
            trim_chars(&raw)
        };
        let r = BodyItem {
            id: crate::ids::new_id(),
            item_type: string_of(&ty),
            name,
            value: string_of(&value),
            children: Vec::new(),
        };
        assert(nodes(r.children@) =~= Seq::<BodyNode>::empty());
        assert(erase_ids_all(Seq::<BodyNode>::empty()) =~= Seq::<BodyNode>::empty());
        r
    }
}

/// Body tree of an SMD `<DataItem>` element, with fresh ids.
pub fn data_item_node_to_tree(ns: &Vec<XmlNode>, di: usize) -> (r: Vec<BodyItem>)
    requires
        di < ns@.len(),
    ensures
        erase_ids_all(nodes(r@)) == data_tree(nodes_view(ns@), di as int),
{
    let ghost v = nodes_view(ns@);
    let kids = child_elements(ns, di);
    let ghost ks = Seq::new(kids@.len(), |j: int| kids@[j] as int);
    assert(ks =~= child_elems(v, di as int));
    let mut out: Vec<BodyItem> = Vec::new();
    let mut j: usize = 0;
    assert(ks.take(0) =~= Seq::<int>::empty());
    while j < kids.len()
        invariant
            di < ns@.len(),
            v == nodes_view(ns@),
            j <= kids@.len(),
            ks == Seq::new(kids@.len(), |j: int| kids@[j] as int),
            forall|k: int| 0 <= k < kids@.len() ==> di < #[trigger] kids@[k] < ns@.len(),
            erase_ids_all(nodes(out@)) == elem_nodes(v, ks.take(j as int), di as int),
        decreases kids.len() - j,
    {
        let c = element_to_body_item(ns, kids[j]);
        let ghost prev = out@;
        out.push(c);
        proof {
            lemma_nodes_push(prev, c);
            assert(nodes(prev).push(c@).drop_last() =~= nodes(prev));
            assert(ks.take(j + 1).drop_last() =~= ks.take(j as int));
            assert(ks.take(j + 1).last() == kids@[j as int] as int);
        }
        j += 1;
    }
    assert(ks.take(kids@.len() as int) =~= ks);
    out
}

/// The item an SMD `<DataItem>` element stands for: its body tree, converted.
pub fn data_item_node_to_secs2(ns: &Vec<XmlNode>, di: usize) -> (r: Result<crate::secs2::Secs2, BodyError>)
    requires
        di < ns@.len(),
    ensures
        match r {
            Ok(x) => tree_item(data_tree(nodes_view(ns@), di as int)) == Ok::<Item, BodyFault>(x@),
            Err(e) => tree_item(data_tree(nodes_view(ns@), di as int)) == Err::<Item, BodyFault>(e@),
        },
{
    let tree = data_item_node_to_tree(ns, di);
    proof {
        lemma_nodes(tree@);
        lemma_tree_item_erase(nodes(tree@));
    }
    crate::body_tree::body_tree_to_secs2(tree.as_slice())
}

/// Trimmed text of the first child element of `ns[p]` named `tag`, unless
/// that is missing or blank.
pub open spec fn text_of(ns: Seq<XmlNodeV>, p: int, tag: Seq<char>) -> Option<Seq<char>> {
    match child_named(ns, p, tag) {
        Some(k) => match ns[k].text {
            Some(t) => if trim(t).len() > 0 {
                Some(trim(t))
            } else {
                None
            },
            None => None,
        },
        None => None,
    }
}

fn text_of_in(ns: &Vec<XmlNode>, p: usize, tag: &str) -> (r: Option<Vec<char>>)
    requires
        p < ns@.len(),
    ensures
        match r {
            Some(t) => text_of(nodes_view(ns@), p as int, tag@) == Some(t@),
            None => text_of(nodes_view(ns@), p as int, tag@) is None,
        },
{
    match child_named_in(ns, p, tag) {
        Some(k) => match &ns[k].text {
            Some(t) => {
                let c = chars_of(t.as_str());
                let tt = trim_chars(&c);
                if tt.len() > 0 {
                    Some(tt)
                } else {
                    None
                }
            },
            None => None,
        },
        None => None,
    }
}

/// SMD flag text: `true`, `1` or `yes` in any case, whitespace ignored.
pub open spec fn smd_bool(s: Seq<char>) -> bool {
    let l = lower(trim(s));
    l == "true"@ || l == "1"@ || l == "yes"@
}

fn parse_bool(s: &[char]) -> (r: bool)
    ensures
        r == smd_bool(s@),
{
    let t = trim_chars(s);
    let l = to_lower(&t);
    chars_eq_str(&l, "true") || chars_eq_str(&l, "1") || chars_eq_str(&l, "yes")
}

/// Direction text in compact form: with `&gt;`/`&lt;` decoded and spaces
/// removed, `H->E` or `H<-E` when it contains one; else the trimmed text.
pub open spec fn normalize_direction(raw: Seq<char>) -> Seq<char> {
    let s = replace_all(replace_all(replace_all(raw, "&gt;"@, ">"@), "&lt;"@, "<"@), " "@, ""@);
    if has_infix(s, "H->E"@) {
        "H->E"@
    } else if has_infix(s, "H<-E"@) {
        "H<-E"@
    } else {
        trim(raw)
    }
}

fn normalize_direction_text(raw: &[char]) -> (r: Vec<char>)
    ensures
        r@ == normalize_direction(raw@),
{
    let a = replace_text(raw, "&gt;", ">");
    let b = replace_text(&a, "&lt;", "<");
    let s = replace_text(&b, " ", "");
    if contains_str(&s, "H->E") {
        chars_of("H->E")
    } else if contains_str(&s, "H<-E") {
        chars_of("H<-E")
    } else {
        trim_chars(raw)
    }
}

/// The message name looks like a bare `SxFy` header: equal to the pair name
/// ignoring ASCII case, or letters and digits starting with `S`/`s`,
/// containing `F`, with a non-blank description that differs from it.
pub open spec fn sx_like(raw: Seq<char>, pair: Seq<char>, desc: Seq<char>) -> bool {
    lower(raw) == lower(pair) || ((forall|i: int| 0 <= i < raw.len() ==> is_alnum(#[trigger] raw[i]))
        && raw.len() > 0 && (raw[0] == 'S' || raw[0] == 's') && raw.contains('F') && desc.len() > 0
        && desc != raw)
}

/// Display name: the description when the message name is only an `SxFy`
/// header, else the message name.
pub open spec fn display_name(raw: Seq<char>, pair: Seq<char>, desc: Seq<char>) -> Seq<char> {
    if sx_like(raw, pair, desc) && desc.len() > 0 {
        desc
    } else {
        raw
    }
}

/// The name shown for an imported message is its description whenever the
/// message name is no more than its pair name (letter case aside) or a bare
/// alphanumeric `S..F..` header different from a non-blank description;
/// any other message name is kept as it is. Either way the name shown is
/// the message name or the description.
pub proof fn lemma_display_name(raw: Seq<char>, pair: Seq<char>, desc: Seq<char>)
    ensures
        desc.len() > 0 && lower(raw) == lower(pair) ==> display_name(raw, pair, desc) == desc,
        desc.len() > 0 && desc != raw && raw.len() > 0 && (raw[0] == 'S' || raw[0] == 's') && raw.contains('F')
            && (forall|i: int| 0 <= i < raw.len() ==> is_alnum(#[trigger] raw[i]))
            ==> display_name(raw, pair, desc) == desc,
        lower(raw) != lower(pair) && (exists|i: int| 0 <= i < raw.len() && !is_alnum(#[trigger] raw[i]))
            ==> display_name(raw, pair, desc) == raw,
        desc.len() == 0 ==> display_name(raw, pair, desc) == raw,
        display_name(raw, pair, desc) == raw || display_name(raw, pair, desc) == desc,
{
}

/// Why an SMD document does not read.
#[derive(Debug)]
pub enum SmdError {
    /// `roxmltree` rejects the XML (its message).
    Xml(String),
    /// The root element is not `<SECSMessage>` (its tag).
    WrongRoot(String),
    MissingStream,
    InvalidStream,
    MissingFunction,
    InvalidFunction,
}

/// Model of an [`SmdError`].
pub enum SmdFault {
    Xml(Seq<char>),
    WrongRoot(Seq<char>),
    MissingStream,
    InvalidStream,
    MissingFunction,
    InvalidFunction,
}

impl View for SmdError {
    type V = SmdFault;

    open spec fn view(&self) -> SmdFault {
        match self {
            SmdError::Xml(m) => SmdFault::Xml(m@),
            SmdError::WrongRoot(t) => SmdFault::WrongRoot(t@),
            SmdError::MissingStream => SmdFault::MissingStream,
            SmdError::InvalidStream => SmdFault::InvalidStream,
            SmdError::MissingFunction => SmdFault::MissingFunction,
            SmdError::InvalidFunction => SmdFault::InvalidFunction,
        }
    }
}

/// Text of an SMD error (an XML one carries the XML reader's text).
pub open spec fn smd_fault_text(e: SmdFault) -> Seq<char> {
    match e {
        SmdFault::Xml(m) => "SMD XML parse error: "@ + m,
        SmdFault::WrongRoot(t) => "expected root <SECSMessage>, got <"@ + t + ">"@,
        SmdFault::MissingStream => "missing Stream"@,
        SmdFault::InvalidStream => "invalid Stream"@,
        SmdFault::MissingFunction => "missing Function"@,
        SmdFault::InvalidFunction => "invalid Function"@,
    }
}

impl SmdError {
    /// The error text.
    pub fn message(&self) -> (r: String)
        ensures
            r@ == smd_fault_text(self@),
    {
        let mut v: Vec<char> = Vec::new();
        match self {
            SmdError::Xml(e) => {
                crate::text::push_str(&mut v, "SMD XML parse error: ");
                crate::text::push_str(&mut v, e.as_str());
            },
            SmdError::WrongRoot(t) => {
                crate::text::push_str(&mut v, "expected root <SECSMessage>, got <");
                crate::text::push_str(&mut v, t.as_str());
                crate::text::push_str(&mut v, ">");
            },
            SmdError::MissingStream => crate::text::push_str(&mut v, "missing Stream"),
            SmdError::InvalidStream => crate::text::push_str(&mut v, "invalid Stream"),
            SmdError::MissingFunction => crate::text::push_str(&mut v, "missing Function"),
            SmdError::InvalidFunction => crate::text::push_str(&mut v, "invalid Function"),
        }
        string_of(&v)
    }
}

/// A message without its random parts: the id and body node ids emptied.
pub open spec fn prefab_shape(m: PrefabV) -> PrefabV {
    PrefabV { id: Seq::empty(), body_tree: erase_ids_all(m.body_tree), ..m }
}

/// `value` or `default` when absent.
pub open spec fn or_default(o: Option<Seq<char>>, default: Seq<char>) -> Seq<char> {
    match o {
        Some(s) => s,
        None => default,
    }
}

/// The message an SMD message element `ns[i]` stands for (ids empty), or
/// `None` when it has no `<Header>`.
pub open spec fn smd_message(ns: Seq<XmlNodeV>, i: int) -> Result<Option<PrefabV>, SmdFault> {
    match child_named(ns, i, "Header"@) {
        None => Ok(None),
        Some(h) => {
            let raw_name = or_default(text_of(ns, h, "MessageName"@), ns[i].tag);
            let dn = child_named(ns, h, "Description"@);
            let description = match dn {
                Some(d) => trim(text_or_empty(ns[d].text)),
                None => Seq::empty(),
            };
            let pair_attr = match dn {
                Some(d) => attr_value(ns[d].attributes, "PairName"@),
                None => None,
            };
            let pair_name = match pair_attr {
                Some(p) => p,
                None => seq!['S'] + or_default(text_of(ns, h, "Stream"@), "0"@) + seq!['F']
                    + or_default(text_of(ns, h, "Function"@), "0"@),
            };
            let message_name = display_name(raw_name, pair_name, description);
            match text_of(ns, h, "Stream"@) {
                None => Err(SmdFault::MissingStream),
                Some(st) => match parse_i32_spec(st) {
                    None => Err(SmdFault::InvalidStream),
                    Some(stream) => match text_of(ns, h, "Function"@) {
                        None => Err(SmdFault::MissingFunction),
                        Some(ft) => match parse_i32_spec(ft) {
                            None => Err(SmdFault::InvalidFunction),
                            Some(function) => {
                                let tree = match child_named(ns, i, "DataItem"@) {
                                    Some(di) => data_tree(ns, di),
                                    None => Seq::empty(),
                                };
                                let sml = match child_named(ns, i, "DataItem"@) {
                                    Some(di) => tree_sml(tree),
                                    None => Seq::empty(),
                                };
                                Ok(Some(PrefabV {
                                    id: Seq::empty(),
                                    message_name,
                                    description,
                                    pair_name,
                                    stream: stream as i32,
                                    function: function as i32,
                                    direction: normalize_direction(or_default(text_of(ns, h, "Direction"@), Seq::empty())),
                                    wait: smd_bool(or_default(text_of(ns, h, "Wait"@), "False"@)),
                                    auto_reply: smd_bool(or_default(text_of(ns, h, "AutoReply"@), "False"@)),
                                    no_logging: smd_bool(or_default(text_of(ns, h, "NoLogging"@), "False"@)),
                                    body_sml: sml,
                                    body_tree: tree,
                                }))
                            },
                        },
                    },
                },
            }
        },
    }
}

/// Messages of the element children `idxs` of the root, in order, skipping
/// those without a header; the first error stops the reading.
pub open spec fn smd_messages_of(ns: Seq<XmlNodeV>, idxs: Seq<int>) -> Result<Seq<PrefabV>, SmdFault>
    decreases idxs.len(),
{
    if idxs.len() == 0 {
        Ok(Seq::empty())
    } else {
        match smd_messages_of(ns, idxs.drop_last()) {
            Err(e) => Err(e),
            Ok(v) => match smd_message(ns, idxs.last()) {
                Err(e) => Err(e),
                Ok(Some(m)) => Ok(v.push(m)),
                Ok(None) => Ok(v),
            },
        }
    }
}

/// The messages an SMD text stands for (ids empty).
pub open spec fn smd_document(text: Seq<char>) -> Result<Seq<PrefabV>, SmdFault> {
    match xml_document_nodes(text) {
        Err(m) => Err(SmdFault::Xml(m)),
        Ok(ns) => match root_index(ns) {
            None => Err(SmdFault::WrongRoot(Seq::empty())),
            Some(r) => if ns[r].tag != "SECSMessage"@ {
                Err(SmdFault::WrongRoot(ns[r].tag))
            } else {
                smd_messages_of(ns, child_elems(ns, r))
            },
        },
    }
}

pub open spec fn shapes(v: Seq<PrefabMessage>) -> Seq<PrefabV> {
    Seq::new(v.len(), |i: int| prefab_shape(v[i]@))
}

fn parse_message_element(ns: &Vec<XmlNode>, i: usize) -> (r: Result<Option<PrefabMessage>, SmdError>)
    requires
        i < ns@.len(),
    ensures
        match r {
            Ok(Some(m)) => smd_message(nodes_view(ns@), i as int) == Ok::<Option<PrefabV>, SmdFault>(Some(prefab_shape(m@))),
            Ok(None) => smd_message(nodes_view(ns@), i as int) == Ok::<Option<PrefabV>, SmdFault>(None),
            Err(e) => smd_message(nodes_view(ns@), i as int) == Err::<Option<PrefabV>, SmdFault>(e@),
        },
{
    let ghost v = nodes_view(ns@);
    let h = match child_named_in(ns, i, "Header") {
        Some(h) => h,
        None => {
            return Ok(None);
        },
    };
    let raw_name = match text_of_in(ns, h, "MessageName") {
        Some(t) => t,
        None => chars_of(ns[i].tag.as_str()),
    };
    let dn = child_named_in(ns, h, "Description");
    let description: Vec<char> = match dn {
        Some(d) => match &ns[d].text {
            Some(t) => {
                let c = chars_of(t.as_str());
                trim_chars(&c)
            },
            None => {
                let e: Vec<char> = Vec::new();
                assert(trim(e@) =~= Seq::<char>::empty()) by {
                    assert(crate::text::lead_ws(e@) == 0);
                    assert(crate::text::trail_ws(e@.skip(0)) == 0);
                }
                e
            },
        },
        None => Vec::new(),
    };
    let pair_attr: Option<String> = match dn {
        Some(d) => attribute(&ns[d], "PairName"),
        None => None,
    };
    let stream_text = text_of_in(ns, h, "Stream");
    let function_text = text_of_in(ns, h, "Function");
    let pair_name: Vec<char> = match pair_attr {
        Some(p) => chars_of(p.as_str()),
        None => {
            let mut v: Vec<char> = Vec::new();
            v.push('S');
            match &stream_text {
                Some(t) => push_all(&mut v, t),
                None => crate::text::push_str(&mut v, "0"),
            }
            v.push('F');
            match &function_text {
                Some(t) => push_all(&mut v, t),
                None => crate::text::push_str(&mut v, "0"),
            }
            v
        },
    };
    let sx = {
        let lr = to_lower(&raw_name);
        let lp = to_lower(&pair_name);
        chars_eq(&lr, &lp) || (all_alnum(&raw_name) && raw_name.len() > 0 && (raw_name[0] == 'S'
            || raw_name[0] == 's') && contains_char(&raw_name, 'F') && description.len() > 0
            && !chars_eq(&description, &raw_name))
    };
    let message_name = if sx && description.len() > 0 {
        copy_chars(&description)
    } else {
        copy_chars(&raw_name)
    };
    let stream = match stream_text {
        None => {
            return Err(SmdError::MissingStream);
        },
        Some(t) => match parse_i32_chars(&t) {
            None => {
                return Err(SmdError::InvalidStream);
            },
            Some(s) => s,
        },
    };
    let function = match function_text {
        None => {
            return Err(SmdError::MissingFunction);
        },
        Some(t) => match parse_i32_chars(&t) {
            None => {
                return Err(SmdError::InvalidFunction);
            },
            Some(f) => f,
        },
    };
    let direction = match text_of_in(ns, h, "Direction") {
        Some(t) => normalize_direction_text(&t),
        None => {
            let e: Vec<char> = Vec::new();
            normalize_direction_text(&e)
        },
    };
    let flag = |tag: &str| -> (b: bool)
        requires
            h < ns@.len(),
        ensures
            b == smd_bool(or_default(text_of(nodes_view(ns@), h as int, tag@), "False"@)),
    {
        match text_of_in(ns, h, tag) {
            Some(t) => parse_bool(&t),
            None => {
                let f = chars_of("False");
                parse_bool(&f)
            },
        }
    };
    let wait = flag("Wait");
    let auto_reply = flag("AutoReply");
    let no_logging = flag("NoLogging");
    let (body_tree, body_sml) = match child_named_in(ns, i, "DataItem") {
        Some(di) => {
            let tree = data_item_node_to_tree(ns, di);
            let sml = body_tree_to_sml(tree.as_slice());
            proof {
                lemma_nodes(tree@);
                lemma_tree_item_erase(nodes(tree@));
            }
            (tree, sml)
        },
        None => {
            let t: Vec<BodyItem> = Vec::new();
            assert(erase_ids_all(nodes(t@)) =~= Seq::<BodyNode>::empty()) by {
                assert(nodes(t@) =~= Seq::<BodyNode>::empty());
            }
            (t, String::new())
        },
    };
    let m = PrefabMessage {
        id: crate::ids::new_id(),
        message_name: string_of(&message_name),
        description: string_of(&description),
        pair_name: string_of(&pair_name),
        stream,
        function,
        direction: string_of(&direction),
        wait,
        auto_reply,
        no_logging,
        body_sml,
        body_tree,
    };
    proof {
        let h0 = h as int;
        assert(raw_name@ == or_default(text_of(v, h0, "MessageName"@), v[i as int].tag));
        let dn0 = child_named(v, h0, "Description"@);
        assert(description@ == match dn0 {
            Some(d) => trim(text_or_empty(v[d].text)),
            None => Seq::<char>::empty(),
        });
        let pa = match dn0 {
            Some(d) => attr_value(v[d].attributes, "PairName"@),
            None => None,
        };
        assert(pair_name@ == match pa {
            Some(p) => p,
            None => seq!['S'] + or_default(text_of(v, h0, "Stream"@), "0"@) + seq!['F']
                + or_default(text_of(v, h0, "Function"@), "0"@),
        });
        assert(sx == sx_like(raw_name@, pair_name@, description@));
        assert(message_name@ == display_name(raw_name@, pair_name@, description@));
        assert(direction@ == normalize_direction(or_default(text_of(v, h0, "Direction"@), Seq::empty())));
        assert(prefab_shape(m@).body_tree == match child_named(v, i as int, "DataItem"@) {
            Some(di) => data_tree(v, di),
            None => Seq::<BodyNode>::empty(),
        });
        assert(prefab_shape(m@).body_sml == match child_named(v, i as int, "DataItem"@) {
            Some(di) => tree_sml(data_tree(v, di)),
            None => Seq::<char>::empty(),
        });
    }
    Ok(Some(m))
}

/// Reads an SMD document into prefabricated messages.
pub fn parse_smd_xml(xml: &str) -> (r: Result<Vec<PrefabMessage>, SmdError>)
    ensures
        match r {
            Ok(v) => smd_document(xml@) == Ok::<Seq<PrefabV>, SmdFault>(shapes(v@)),
            Err(e) => smd_document(xml@) == Err::<Seq<PrefabV>, SmdFault>(e@),
        },
{
    let ns = match parse_xml(xml) {
        Ok(ns) => ns,
        Err(e) => {
            return Err(SmdError::Xml(e));
        },
    };
    let ghost v = nodes_view(ns@);
    let root = match root_element(&ns) {
        Some(r) => r,
        None => {
            return Err(SmdError::WrongRoot(String::new()));
        },
    };
    let tag = chars_of(ns[root].tag.as_str());
    if !chars_eq_str(&tag, "SECSMessage") {
        return Err(SmdError::WrongRoot(ns[root].tag.clone()));
    }
    let kids = child_elements(&ns, root);
    let ghost ks = Seq::new(kids@.len(), |j: int| kids@[j] as int);
    assert(ks =~= child_elems(v, root as int));
    let mut out: Vec<PrefabMessage> = Vec::new();
    let mut j: usize = 0;
    assert(ks.take(0) =~= Seq::<int>::empty());
    assert(shapes(out@) =~= Seq::<PrefabV>::empty());
    while j < kids.len()
        invariant
            v == nodes_view(ns@),
            xml_document_nodes(xml@) == Ok::<Seq<XmlNodeV>, Seq<char>>(v),
            root_index(v) == Some(root as int),
            root < ns@.len(),
            v[root as int].tag == "SECSMessage"@,
            ks == child_elems(v, root as int),
            j <= kids@.len(),
            ks == Seq::new(kids@.len(), |j: int| kids@[j] as int),
            forall|k: int| 0 <= k < kids@.len() ==> #[trigger] kids@[k] < ns@.len(),
            smd_messages_of(v, ks.take(j as int)) == Ok::<Seq<PrefabV>, SmdFault>(shapes(out@)),
        decreases kids.len() - j,
    {
        proof {
            assert(ks.take(j + 1).drop_last() =~= ks.take(j as int));
            assert(ks.take(j + 1).last() == kids@[j as int] as int);
        }
        match parse_message_element(&ns, kids[j]) {
            Ok(Some(m)) => {
                let ghost prev = out@;
                out.push(m);
                assert(shapes(out@) =~= shapes(prev).push(prefab_shape(m@)));
            },
            Ok(None) => {},
            Err(e) => {
                proof {
                    assert(smd_messages_of(v, ks.take(j + 1)) == Err::<Seq<PrefabV>, SmdFault>(e@));
                    lemma_smd_err(v, ks, j + 1);
                }
                return Err(e);
            },
        }
        j += 1;
    }
    assert(ks.take(kids@.len() as int) =~= ks);
    Ok(out)
}

proof fn lemma_smd_err(ns: Seq<XmlNodeV>, t: Seq<int>, i: int)
    requires
        0 <= i <= t.len(),
        smd_messages_of(ns, t.take(i)) is Err,
    ensures
        smd_messages_of(ns, t) == smd_messages_of(ns, t.take(i)),
    decreases t.len() - i,
{
    if i < t.len() {
        assert(t.take(i + 1).drop_last() =~= t.take(i));
        lemma_smd_err(ns, t, i + 1);
    } else {
        assert(t.take(i) =~= t);
    }
}

impl crate::catalog::MessageCatalog {
    /// Replaces the whole catalog with the messages of an SMD document and
    /// returns how many there are; on error the catalog is unchanged.
    pub fn import_smd(&mut self, xml: &str, source: &str) -> (r: Result<usize, SmdError>)
        ensures
            match r {
                Ok(n) => smd_document(xml@) == Ok::<Seq<PrefabV>, SmdFault>(
                    Seq::new(final(self)@.messages.len(), |i: int| prefab_shape(final(self)@.messages[i])),
                ) && n == final(self)@.messages.len() && final(self)@.source == source@,
                Err(e) => smd_document(xml@) == Err::<Seq<PrefabV>, SmdFault>(e@) && final(self)@ == old(self)@,
            },
    {
        let parsed = parse_smd_xml(xml)?;
        let n = parsed.len();
        self.source = source.to_string();
        self.messages = parsed;
        assert(Seq::new(self@.messages.len(), |i: int| prefab_shape(self@.messages[i])) =~= shapes(self.messages@));
        Ok(n)
    }
}

/// Why an SMD `<DataItem>` fragment does not convert.
#[derive(Debug)]
pub enum DataItemError {
    /// `roxmltree` rejects the wrapped fragment (its message).
    Xml(String),
    Body(BodyError),
}

pub enum DataItemFault {
    Xml(Seq<char>),
    Body(BodyFault),
}

impl View for DataItemError {
    type V = DataItemFault;

    open spec fn view(&self) -> DataItemFault {
        match self {
            DataItemError::Xml(m) => DataItemFault::Xml(m@),
            DataItemError::Body(e) => DataItemFault::Body(e@),
        }
    }
}

/// The item an SMD `<DataItem>` fragment stands for: no item unless the text
/// starts (after whitespace) with `<`; the fragment is wrapped in `<_r>..</_r>`,
/// and the first `<DataItem>` child of that root, or the root itself, is read.
pub open spec fn data_item_fragment(frag: Seq<char>) -> Result<Item, DataItemFault> {
    let t = crate::text::trim_start(frag);
    if !(t.len() > 0 && t[0] == '<') {
        Ok(Item::Empty)
    } else {
        match xml_document_nodes("<_r>"@ + frag + "</_r>"@) {
            Err(m) => Err(DataItemFault::Xml(m)),
            Ok(ns) => match root_index(ns) {
                None => match tree_item(Seq::empty()) {
                    Ok(x) => Ok(x),
                    Err(e) => Err(DataItemFault::Body(e)),
                },
                Some(r) => {
                    let di = match child_named(ns, r, "DataItem"@) {
                        Some(d) => d,
                        None => r,
                    };
                    match tree_item(data_tree(ns, di)) {
                        Ok(x) => Ok(x),
                        Err(e) => Err(DataItemFault::Body(e)),
                    }
                },
            },
        }
    }
}

/// The item of an SMD `<DataItem>` fragment.
pub fn data_item_to_secs2(xml_fragment: &str) -> (r: Result<crate::secs2::Secs2, DataItemError>)
    ensures
        match r {
            Ok(x) => data_item_fragment(xml_fragment@) == Ok::<Item, DataItemFault>(x@),
            Err(e) => data_item_fragment(xml_fragment@) == Err::<Item, DataItemFault>(e@),
        },
{
    let raw = chars_of(xml_fragment);
    let mut a: usize = 0;
    while a < raw.len() && crate::text::is_whitespace(raw[a])
        invariant
            a <= raw@.len(),
            forall|k: int| 0 <= k < a ==> crate::text::is_ws(#[trigger] raw@[k]),
        decreases raw.len() - a,
    {
        a += 1;
    }
    proof {
        crate::text::lemma_lead_ws_unique(raw@, a as int);
    }
    if !(a < raw.len() && raw[a] == '<') {
        return Ok(crate::secs2::Secs2::Empty);
    }
    let mut w = chars_of("<_r>");
    push_all(&mut w, &raw);
    crate::text::push_str(&mut w, "</_r>");
    let wrapped = string_of(&w);
    let ns = match parse_xml(wrapped.as_str()) {
        Ok(ns) => ns,
        Err(e) => {
            return Err(DataItemError::Xml(e));
        },
    };
    let converted = match root_element(&ns) {
        Some(r) => {
            let di = match child_named_in(&ns, r, "DataItem") {
                Some(d) => d,
                None => r,
            };
            data_item_node_to_secs2(&ns, di)
        },
        None => {
            let tree: Vec<BodyItem> = Vec::new();
            proof {
                lemma_nodes(tree@);
                assert(nodes(tree@) =~= Seq::<BodyNode>::empty());
            }
            crate::body_tree::body_tree_to_secs2(tree.as_slice())
        },
    };
    match converted {
        Ok(x) => Ok(x),
        Err(e) => Err(DataItemError::Body(e)),
    }
}

} // verus!
