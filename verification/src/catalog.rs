//! Prefabricated SECS messages and the per-session message catalog.

use vstd::prelude::*;
use crate::body_tree::{
    BodyItem, BodyNode, BodyError, BodyFault, nodes, lemma_nodes, clone_body_items,
    body_tree_to_secs2, tree_item,
};
use crate::config::Role;
use crate::numbers::{int_str, i64_text};
use crate::secs2::{Item, Secs2};
use crate::sml_bridge::{SmlError, parse_body_sml, body_sml_item};
use crate::sml_write::{body_tree_to_sml, sml_item};
use crate::text::{
    chars_of, contains_str, has_infix, string_of, trim, trim_chars, chars_eq, push_all, push_str,
};
use crate::rules::HsmsHeader;

verus! {

/// One prefabricated message (from SMD or edited by hand).
#[derive(Debug)]
pub struct PrefabMessage {
    pub id: String,
    pub message_name: String,
    pub description: String,
    /// Pair group, e.g. `S1F1`.
    pub pair_name: String,
    pub stream: i32,
    pub function: i32,
    /// `H->E` or `H<-E`.
    pub direction: String,
    pub wait: bool,
    pub auto_reply: bool,
    pub no_logging: bool,
    /// SML body text (used when there is no body tree).
    pub body_sml: String,
    /// Structured body (preferred).
    pub body_tree: Vec<BodyItem>,
}

/// Model of a [`PrefabMessage`].
pub struct PrefabV {
    pub id: Seq<char>,
    pub message_name: Seq<char>,
    pub description: Seq<char>,
    pub pair_name: Seq<char>,
    pub stream: i32,
    pub function: i32,
    pub direction: Seq<char>,
    pub wait: bool,
    pub auto_reply: bool,
    pub no_logging: bool,
    pub body_sml: Seq<char>,
    pub body_tree: Seq<BodyNode>,
}

impl View for PrefabMessage {
    type V = PrefabV;

    open spec fn view(&self) -> PrefabV {
        PrefabV {
            id: self.id@,
            message_name: self.message_name@,
            description: self.description@,
            pair_name: self.pair_name@,
            stream: self.stream,
            function: self.function,
            direction: self.direction@,
            wait: self.wait,
            auto_reply: self.auto_reply,
            no_logging: self.no_logging,
            body_sml: self.body_sml@,
            body_tree: nodes(self.body_tree@),
        }
    }
}

impl Clone for PrefabMessage {
    fn clone(&self) -> (r: Self)
        ensures
            r@ == self@,
    {
        PrefabMessage {
            id: self.id.clone(),
            message_name: self.message_name.clone(),
            description: self.description.clone(),
            pair_name: self.pair_name.clone(),
            stream: self.stream,
            function: self.function,
            direction: self.direction.clone(),
            wait: self.wait,
            auto_reply: self.auto_reply,
            no_logging: self.no_logging,
            body_sml: self.body_sml.clone(),
            body_tree: clone_body_items(&self.body_tree),
        }
    }
}

/// `S<stream>F<function>` with signed decimal numbers.
pub open spec fn sx_fy_text(stream: int, function: int) -> Seq<char> {
    seq!['S'] + int_str(stream) + seq!['F'] + int_str(function)
}

/// Host-to-equipment direction text.
pub open spec fn h2e(d: Seq<char>) -> bool {
    has_infix(d, "H->E"@) || has_infix(d, "H-&gt;E"@)
}

/// Equipment-to-host direction text.
pub open spec fn e2h(d: Seq<char>) -> bool {
    has_infix(d, "H<-E"@) || has_infix(d, "H-&lt;E"@)
}

/// The direction `role` receives.
pub open spec fn inbound_for(m: PrefabV, role: Role) -> bool {
    match role {
        Role::Equipment => h2e(m.direction),
        Role::Host => e2h(m.direction),
    }
}

/// The direction `role` sends.
pub open spec fn outbound_for(m: PrefabV, role: Role) -> bool {
    match role {
        Role::Equipment => e2h(m.direction),
        Role::Host => h2e(m.direction),
    }
}

/// Why a message's body does not convert.
#[derive(Debug)]
pub enum MessageBodyError {
    Tree(BodyError),
    Sml(SmlError),
}

/// Model of a [`MessageBodyError`].
pub enum MessageBodyFault {
    Tree(BodyFault),
    Sml,
}

impl View for MessageBodyError {
    type V = MessageBodyFault;

    open spec fn view(&self) -> MessageBodyFault {
        match self {
            MessageBodyError::Tree(e) => MessageBodyFault::Tree(e@),
            MessageBodyError::Sml(_) => MessageBodyFault::Sml,
        }
    }
}

impl MessageBodyError {
    /// The error text: that of the body tree error, or of the SML reader.
    pub fn message(&self) -> (r: String)
        ensures
            match self {
                MessageBodyError::Tree(e) => r@ == crate::body_tree::body_fault_text(e@),
                MessageBodyError::Sml(_) => r@ == "SML: invalid SML"@,
            },
    {
        match self {
            MessageBodyError::Tree(e) => e.message(),
            MessageBodyError::Sml(e) => e.message(),
        }
    }
}

/// The body item of a message: from the tree when it has one, else from
/// the SML text.
pub open spec fn message_body(m: PrefabV) -> Result<Item, MessageBodyFault> {
    if m.body_tree.len() > 0 {
        match tree_item(m.body_tree) {
            Ok(x) => Ok(x),
            Err(e) => Err(MessageBodyFault::Tree(e)),
        }
    } else {
        match body_sml_item(m.body_sml) {
            Some(x) => Ok(x),
            None => Err(MessageBodyFault::Sml),
        }
    }
}

/// SML text of the tree, or nothing when the tree does not convert.
pub open spec fn tree_sml(t: Seq<BodyNode>) -> Seq<char> {
    match tree_item(t) {
        Ok(x) => sml_item(x),
        Err(_) => Seq::empty(),
    }
}

impl PrefabMessage {
    /// `S<stream>F<function>`.
    pub fn sx_fy(&self) -> (r: String)
        ensures
            r@ == sx_fy_text(self.stream as int, self.function as int),
    {
        let mut v: Vec<char> = Vec::new();
        v.push('S');
        let a = i64_text(self.stream as i64);
        push_all(&mut v, &a);
        v.push('F');
        let b = i64_text(self.function as i64);
        push_all(&mut v, &b);
        string_of(&v)
    }

    /// Direction text says host to equipment.
    pub fn is_host_to_equip(&self) -> (r: bool)
        ensures
            r == h2e(self.direction@),
    {
        let d = chars_of(self.direction.as_str());
        contains_str(&d, "H->E") || contains_str(&d, "H-&gt;E")
    }

    /// Direction text says equipment to host.
    pub fn is_equip_to_host(&self) -> (r: bool)
        ensures
            r == e2h(self.direction@),
    {
        let d = chars_of(self.direction.as_str());
        contains_str(&d, "H<-E") || contains_str(&d, "H-&lt;E")
    }

    /// The message travels in the direction `role` receives.
    pub fn is_inbound_for(&self, role: &Role) -> (r: bool)
        ensures
            r == inbound_for(self@, *role),
    {
        match role {
            Role::Equipment => self.is_host_to_equip(),
            Role::Host => self.is_equip_to_host(),
        }
    }

    /// The message travels in the direction `role` sends.
    pub fn is_outbound_for(&self, role: &Role) -> (r: bool)
        ensures
            r == outbound_for(self@, *role),
    {
        match role {
            Role::Equipment => self.is_equip_to_host(),
            Role::Host => self.is_host_to_equip(),
        }
    }

    /// The body item: from the tree when there is one, else from the SML text.
    pub fn body_secs2(&self) -> (r: Result<Secs2, MessageBodyError>)
        ensures
            match r {
                Ok(x) => message_body(self@) == Ok::<Item, MessageBodyFault>(x@),
                Err(e) => message_body(self@) == Err::<Item, MessageBodyFault>(e@),
            },
    {
        proof {
            lemma_nodes(self.body_tree@);
        }
        if self.body_tree.len() > 0 {
            return match body_tree_to_secs2(self.body_tree.as_slice()) {
                Ok(x) => Ok(x),
                Err(e) => Err(MessageBodyError::Tree(e)),
            };
        }
        match parse_body_sml(self.body_sml.as_str()) {
            Ok(x) => Ok(x),
            Err(e) => Err(MessageBodyError::Sml(e)),
        }
    }

    /// Refreshes the SML text from the body tree; a message without a tree
    /// keeps its SML text.
    pub fn sync_body_sml_from_tree(&mut self)
        ensures
            final(self)@ == (if old(self)@.body_tree.len() == 0 {
                old(self)@
            } else {
                PrefabV { body_sml: tree_sml(old(self)@.body_tree), ..old(self)@ }
            }),
    {
        proof {
            lemma_nodes(self.body_tree@);
        }
        if self.body_tree.len() == 0 {
            return;
        }
        self.body_sml = body_tree_to_sml(self.body_tree.as_slice());
    }
}

/// A new editable message with default header fields.
pub fn new_blank_message() -> (r: PrefabMessage)
    ensures
        r@.message_name == "NewMessage"@,
        r@.description == Seq::<char>::empty(),
        r@.pair_name == "S1F1"@,
        r@.stream == 1,
        r@.function == 1,
        r@.direction == "H->E"@,
        r@.wait,
        !r@.auto_reply,
        !r@.no_logging,
        r@.body_sml == Seq::<char>::empty(),
        r@.body_tree == Seq::<BodyNode>::empty(),
        r@.id.len() == 36,
{
    let r = PrefabMessage {
        id: crate::ids::new_id(),
        message_name: String::from_str("NewMessage"),
        description: String::new(),
        pair_name: String::from_str("S1F1"),
        stream: 1,
        function: 1,
        direction: String::from_str("H->E"),
        wait: true,
        auto_reply: false,
        no_logging: false,
        body_sml: String::new(),
        body_tree: Vec::new(),
    };
    assert(nodes(r.body_tree@) =~= Seq::<BodyNode>::empty());
    r
}

/// A per-session message library.
#[derive(Debug)]
pub struct MessageCatalog {
    pub source: String,
    pub messages: Vec<PrefabMessage>,
}

pub open spec fn prefabs(v: Seq<PrefabMessage>) -> Seq<PrefabV> {
    Seq::new(v.len(), |i: int| v[i]@)
}

/// Model of a [`MessageCatalog`].
pub struct CatalogV {
    pub source: Seq<char>,
    pub messages: Seq<PrefabV>,
}

impl View for MessageCatalog {
    type V = CatalogV;

    open spec fn view(&self) -> CatalogV {
        CatalogV { source: self.source@, messages: prefabs(self.messages@) }
    }
}

/// Index of the first message satisfying `p`.
pub open spec fn first_where(ms: Seq<PrefabV>, p: spec_fn(PrefabV) -> bool) -> Option<int>
    decreases ms.len(),
{
    if ms.len() == 0 {
        None
    } else if p(ms[0]) {
        Some(0)
    } else {
        match first_where(ms.drop_first(), p) {
            Some(i) => Some(i + 1),
            None => None,
        }
    }
}

pub proof fn lemma_first_where(ms: Seq<PrefabV>, p: spec_fn(PrefabV) -> bool)
    ensures
        match first_where(ms, p) {
            Some(i) => 0 <= i < ms.len() && p(ms[i]) && forall|k: int| 0 <= k < i ==> !p(#[trigger] ms[k]),
            None => forall|k: int| 0 <= k < ms.len() ==> !p(#[trigger] ms[k]),
        },
    decreases ms.len(),
{
    if ms.len() > 0 && !p(ms[0]) {
        lemma_first_where(ms.drop_first(), p);
        assert forall|k: int| 0 < k < ms.len() implies #[trigger] ms[k] == ms.drop_first()[k - 1] by {}
    }
}

pub proof fn lemma_first_where_unique(ms: Seq<PrefabV>, p: spec_fn(PrefabV) -> bool, i: int)
    requires
        0 <= i <= ms.len(),
        i < ms.len() ==> p(ms[i]),
        forall|k: int| 0 <= k < i ==> !p(#[trigger] ms[k]),
    ensures
        first_where(ms, p) == if i < ms.len() {
            Some(i)
        } else {
            None::<int>
        },
{
    lemma_first_where(ms, p);
}

/// Message with id `id`.
pub open spec fn id_is(id: Seq<char>) -> spec_fn(PrefabV) -> bool {
    |m: PrefabV| m.id == id
}

/// An inbound primary with auto-reply for the received header.
pub open spec fn auto_reply_primary(role: Role, stream: i32, function: i32) -> spec_fn(PrefabV) -> bool {
    |m: PrefabV| m.stream == stream && m.function == function && m.auto_reply && inbound_for(m, role)
}

/// Reply candidate of the same pair and description variant.
pub open spec fn reply_same_variant(role: Role, primary: PrefabV, reply_fn: int) -> spec_fn(PrefabV) -> bool {
    |m: PrefabV| m.pair_name == primary.pair_name && m.stream == primary.stream && m.function == reply_fn
        && trim(m.description) == trim(primary.description) && outbound_for(m, role)
}

/// Reply candidate of the same pair.
pub open spec fn reply_same_pair(role: Role, primary: PrefabV, reply_fn: int) -> spec_fn(PrefabV) -> bool {
    |m: PrefabV| m.pair_name == primary.pair_name && m.stream == primary.stream && m.function == reply_fn
        && outbound_for(m, role)
}

/// Reply candidate by stream and function alone.
pub open spec fn reply_same_sf(role: Role, primary: PrefabV, reply_fn: int) -> spec_fn(PrefabV) -> bool {
    |m: PrefabV| m.stream == primary.stream && m.function == reply_fn && outbound_for(m, role)
}

/// Index of the secondary that answers `primary`: only an odd (positive)
/// function has one; first the same pair, stream and description variant
/// (when the description is not blank), then the same pair and stream, then
/// any message with the stream and reply function; all outbound for `role`.
pub open spec fn reply_index(ms: Seq<PrefabV>, role: Role, primary: PrefabV) -> Option<int> {
    if !(primary.function >= 0 && primary.function % 2 == 1) {
        None
    } else {
        let reply_fn = primary.function + 1;
        let v = if trim(primary.description).len() > 0 {
            first_where(ms, reply_same_variant(role, primary, reply_fn))
        } else {
            None
        };
        match v {
            Some(i) => Some(i),
            None => match first_where(ms, reply_same_pair(role, primary, reply_fn)) {
                Some(i) => Some(i),
                None => first_where(ms, reply_same_sf(role, primary, reply_fn)),
            },
        }
    }
}

/// The secondary chosen for a primary with a non-blank description is, when
/// the catalog has one, the first outbound message of the same pair and
/// stream, with the reply function and the same description (ignoring
/// surrounding whitespace): the description variant wins over a message that
/// only shares the pair. Whatever is chosen is outbound for `role`, on the
/// primary's stream, with the reply function.
pub proof fn lemma_reply_prefers_variant(ms: Seq<PrefabV>, role: Role, primary: PrefabV)
    ensures
        reply_index(ms, role, primary) matches Some(j) ==> {
            &&& 0 <= j < ms.len()
            &&& outbound_for(ms[j], role)
            &&& ms[j].stream == primary.stream
            &&& ms[j].function == primary.function + 1
            &&& primary.function >= 0 && primary.function % 2 == 1
        },
        ({
            let same_variant = |m: PrefabV| m.pair_name == primary.pair_name && m.stream == primary.stream
                && m.function == primary.function + 1 && trim(m.description) == trim(primary.description)
                && outbound_for(m, role);
            primary.function >= 0 && primary.function % 2 == 1 && trim(primary.description).len() > 0
                && (exists|k: int| 0 <= k < ms.len() && same_variant(#[trigger] ms[k]))
                ==> (reply_index(ms, role, primary) matches Some(j) && same_variant(ms[j])
                    && forall|k: int| 0 <= k < j ==> !same_variant(#[trigger] ms[k]))
        }),
{
    if primary.function >= 0 && primary.function % 2 == 1 {
        let reply_fn = primary.function + 1;
        lemma_first_where(ms, reply_same_variant(role, primary, reply_fn));
        lemma_first_where(ms, reply_same_pair(role, primary, reply_fn));
        lemma_first_where(ms, reply_same_sf(role, primary, reply_fn));
    }
}

/// Message list after `upsert(msg)`: replaces the first message with the same
/// id, else appends.
pub open spec fn upserted(ms: Seq<PrefabV>, msg: PrefabV) -> Seq<PrefabV> {
    match first_where(ms, id_is(msg.id)) {
        Some(i) => ms.update(i, msg),
        None => ms.push(msg),
    }
}

/// Message whose id is not `id`.
pub open spec fn id_not(id: Seq<char>) -> spec_fn(PrefabV) -> bool {
    |m: PrefabV| m.id != id
}

/// Message list without the messages whose id is `id`.
pub open spec fn without_id(ms: Seq<PrefabV>, id: Seq<char>) -> Seq<PrefabV> {
    ms.filter(id_not(id))
}

impl MessageCatalog {
    /// An empty catalog.
    pub fn new() -> (r: Self)
        ensures
            r@.source == Seq::<char>::empty(),
            r@.messages == Seq::<PrefabV>::empty(),
    {
        let r = MessageCatalog { source: String::new(), messages: Vec::new() };
        assert(prefabs(r.messages@) =~= Seq::<PrefabV>::empty());
        r
    }

    /// Number of messages.
    pub fn len(&self) -> (r: usize)
        ensures
            r == self@.messages.len(),
    {
        self.messages.len()
    }

    /// No messages.
    pub fn is_empty(&self) -> (r: bool)
        ensures
            r == (self@.messages.len() == 0),
    {
        self.messages.len() == 0
    }

    /// Index of the first message with id `id`.
    pub fn position(&self, id: &str) -> (r: Option<usize>)
        ensures
            match r {
                Some(i) => first_where(self@.messages, id_is(id@)) == Some(i as int) && i < self@.messages.len(),
                None => first_where(self@.messages, id_is(id@)) is None,
            },
    {
        let want = chars_of(id);
        let mut i: usize = 0;
        while i < self.messages.len()
            invariant
                i <= self.messages@.len(),
                want@ == id@,
                forall|k: int| 0 <= k < i ==> !(id_is(id@))(#[trigger] self@.messages[k]),
            decreases self.messages.len() - i,
        {
            let have = chars_of(self.messages[i].id.as_str());
            if chars_eq(&have, &want) {
                proof {
                    lemma_first_where_unique(self@.messages, id_is(id@), i as int);
                }
                return Some(i);
            }
            i += 1;
        }
        proof {
            lemma_first_where_unique(self@.messages, id_is(id@), i as int);
        }
        None
    }

    /// The first message with id `id`.
    pub fn get(&self, id: &str) -> (r: Option<&PrefabMessage>)
        ensures
            match first_where(self@.messages, id_is(id@)) {
                Some(i) => r matches Some(m) && m@ == self@.messages[i],
                None => r is None,
            },
    {
        match self.position(id) {
            Some(i) => Some(&self.messages[i]),
            None => None,
        }
    }

    /// Replaces the message with the same id, or appends it.
    pub fn upsert(&mut self, msg: PrefabMessage)
        ensures
            final(self)@.source == old(self)@.source,
            final(self)@.messages == upserted(old(self)@.messages, msg@),
    {
        let ghost msgv = msg@;
        match self.position(msg.id.as_str()) {
            Some(i) => {
                self.messages.set(i, msg);
                assert(prefabs(self.messages@) =~= prefabs(old(self).messages@).update(i as int, msgv));
            },
            None => {
                self.messages.push(msg);
                assert(prefabs(self.messages@) =~= prefabs(old(self).messages@).push(msgv));
            },
        }
    }

    /// Removes every message with id `id`; `true` when one was removed.
    pub fn remove(&mut self, id: &str) -> (r: bool)
        ensures
            final(self)@.source == old(self)@.source,
            final(self)@.messages == without_id(old(self)@.messages, id@),
            r == (final(self)@.messages.len() != old(self)@.messages.len()),
    {
        let want = chars_of(id);
        let ghost pred = id_not(id@);
        let ghost all = prefabs(self.messages@);
        let mut kept: Vec<PrefabMessage> = Vec::new();
        let before = self.messages.len();
        let mut i: usize = 0;
        while i < self.messages.len()
            invariant
                i <= self.messages@.len(),
                want@ == id@,
                all == prefabs(self.messages@),
                pred == id_not(id@),
                self.messages@ == old(self).messages@,
                prefabs(kept@) == all.take(i as int).filter(pred),
            decreases self.messages.len() - i,
        {
            let have = chars_of(self.messages[i].id.as_str());
            let ghost prev = kept@;
            let keep = !chars_eq(&have, &want);
            assert(all[i as int] == self.messages@[i as int]@);
            assert(all[i as int].id == have@);
            if keep {
                kept.push(self.messages[i].clone());
                assert(prefabs(kept@) =~= prefabs(prev).push(all[i as int]));
            }
            proof {
                reveal(Seq::filter);
                assert(all.take(i + 1).drop_last() =~= all.take(i as int));
                assert(all.take(i + 1).last() == all[i as int]);
                assert(pred(all[i as int]) == (all[i as int].id != id@));
                assert(keep == (have@ != want@));
                assert(pred(all[i as int]) == keep);
                assert(all.take(i + 1).filter(pred) == if pred(all[i as int]) {
                    all.take(i as int).filter(pred).push(all[i as int])
                } else {
                    all.take(i as int).filter(pred)
                });
            }
            i += 1;
        }
        assert(all.take(all.len() as int) =~= all);
        self.messages = kept;
        self.messages.len() != before
    }

    /// The inbound primary with auto-reply for a received header.
    pub fn find_auto_reply_primary(&self, role: &Role, stream: i32, function: i32) -> (r: Option<&PrefabMessage>)
        ensures
            match first_where(self@.messages, auto_reply_primary(*role, stream, function)) {
                Some(i) => r matches Some(m) && m@ == self@.messages[i],
                None => r is None,
            },
    {
        let ghost p = auto_reply_primary(*role, stream, function);
        let mut i: usize = 0;
        while i < self.messages.len()
            invariant
                i <= self.messages@.len(),
                p == auto_reply_primary(*role, stream, function),
                forall|k: int| 0 <= k < i ==> !p(#[trigger] self@.messages[k]),
            decreases self.messages.len() - i,
        {
            let m = &self.messages[i];
            if m.stream == stream && m.function == function && m.auto_reply && m.is_inbound_for(role) {
                proof {
                    lemma_first_where_unique(self@.messages, p, i as int);
                }
                return Some(m);
            }
            i += 1;
        }
        proof {
            lemma_first_where_unique(self@.messages, p, i as int);
        }
        None
    }

    fn find_reply_variant(&self, role: &Role, primary: &PrefabMessage, reply_fn: i32) -> (r: Option<usize>)
        ensures
            match r {
                Some(i) => first_where(self@.messages, reply_same_variant(*role, primary@, reply_fn as int)) == Some(i as int) && i < self@.messages.len(),
                None => first_where(self@.messages, reply_same_variant(*role, primary@, reply_fn as int)) is None,
            },
    {
        let ghost p = reply_same_variant(*role, primary@, reply_fn as int);
        let pd = chars_of(primary.description.as_str());
        let desc = trim_chars(&pd);
        let pp = chars_of(primary.pair_name.as_str());
        let mut i: usize = 0;
        while i < self.messages.len()
            invariant
                i <= self.messages@.len(),
                p == reply_same_variant(*role, primary@, reply_fn as int),
                desc@ == trim(primary@.description),
                pp@ == primary@.pair_name,
                forall|k: int| 0 <= k < i ==> !p(#[trigger] self@.messages[k]),
            decreases self.messages.len() - i,
        {
            let m = &self.messages[i];
            let mp = chars_of(m.pair_name.as_str());
            let md = chars_of(m.description.as_str());
            let mdt = trim_chars(&md);
            if chars_eq(&mp, &pp) && m.stream == primary.stream && m.function == reply_fn
                && chars_eq(&mdt, &desc) && m.is_outbound_for(role) {
                proof {
                    lemma_first_where_unique(self@.messages, p, i as int);
                }
                return Some(i);
            }
            i += 1;
        }
        proof {
            lemma_first_where_unique(self@.messages, p, i as int);
        }
        None
    }

    fn find_reply_pair(&self, role: &Role, primary: &PrefabMessage, reply_fn: i32) -> (r: Option<usize>)
        ensures
            match r {
                Some(i) => first_where(self@.messages, reply_same_pair(*role, primary@, reply_fn as int)) == Some(i as int) && i < self@.messages.len(),
                None => first_where(self@.messages, reply_same_pair(*role, primary@, reply_fn as int)) is None,
            },
    {
        let ghost p = reply_same_pair(*role, primary@, reply_fn as int);
        let pp = chars_of(primary.pair_name.as_str());
        let mut i: usize = 0;
        while i < self.messages.len()
            invariant
                i <= self.messages@.len(),
                p == reply_same_pair(*role, primary@, reply_fn as int),
                pp@ == primary@.pair_name,
                forall|k: int| 0 <= k < i ==> !p(#[trigger] self@.messages[k]),
            decreases self.messages.len() - i,
        {
            let m = &self.messages[i];
            let mp = chars_of(m.pair_name.as_str());
            if chars_eq(&mp, &pp) && m.stream == primary.stream && m.function == reply_fn
                && m.is_outbound_for(role) {
                proof {
                    lemma_first_where_unique(self@.messages, p, i as int);
                }
                return Some(i);
            }
            i += 1;
        }
        proof {
            lemma_first_where_unique(self@.messages, p, i as int);
        }
        None
    }

    fn find_reply_sf(&self, role: &Role, primary: &PrefabMessage, reply_fn: i32) -> (r: Option<usize>)
        ensures
            match r {
                Some(i) => first_where(self@.messages, reply_same_sf(*role, primary@, reply_fn as int)) == Some(i as int) && i < self@.messages.len(),
                None => first_where(self@.messages, reply_same_sf(*role, primary@, reply_fn as int)) is None,
            },
    {
        let ghost p = reply_same_sf(*role, primary@, reply_fn as int);
        let mut i: usize = 0;
        while i < self.messages.len()
            invariant
                i <= self.messages@.len(),
                p == reply_same_sf(*role, primary@, reply_fn as int),
                forall|k: int| 0 <= k < i ==> !p(#[trigger] self@.messages[k]),
            decreases self.messages.len() - i,
        {
            let m = &self.messages[i];
            if m.stream == primary.stream && m.function == reply_fn && m.is_outbound_for(role) {
                proof {
                    lemma_first_where_unique(self@.messages, p, i as int);
                }
                return Some(i);
            }
            i += 1;
        }
        proof {
            lemma_first_where_unique(self@.messages, p, i as int);
        }
        None
    }

    /// The secondary that answers `primary` (see [`reply_index`]).
    pub fn find_reply_for(&self, role: &Role, primary: &PrefabMessage) -> (r: Option<&PrefabMessage>)
        requires
            primary.function < i32::MAX,
        ensures
            match reply_index(self@.messages, *role, primary@) {
                Some(i) => r matches Some(m) && m@ == self@.messages[i],
                None => r is None,
            },
    {
        if !(primary.function >= 0 && primary.function % 2 == 1) {
            return None;
        }
        let reply_fn = primary.function + 1;
        proof {
            lemma_first_where(self@.messages, reply_same_variant(*role, primary@, reply_fn as int));
            lemma_first_where(self@.messages, reply_same_pair(*role, primary@, reply_fn as int));
            lemma_first_where(self@.messages, reply_same_sf(*role, primary@, reply_fn as int));
        }
        let pd = chars_of(primary.description.as_str());
        let desc = trim_chars(&pd);
        if desc.len() > 0 {
            if let Some(i) = self.find_reply_variant(role, primary, reply_fn) {
                return Some(&self.messages[i]);
            }
        }
        if let Some(i) = self.find_reply_pair(role, primary, reply_fn) {
            return Some(&self.messages[i]);
        }
        match self.find_reply_sf(role, primary, reply_fn) {
            Some(i) => Some(&self.messages[i]),
            None => None,
        }
    }
}


impl MessageCatalog {
    /// The first message with id `id`, for editing in place.
    pub fn get_mut(&mut self, id: &str) -> (r: Option<&mut PrefabMessage>)
        ensures
            match first_where(old(self)@.messages, id_is(id@)) {
                Some(i) => r matches Some(m) && (*m)@ == old(self)@.messages[i]
                    && final(self).messages@ == old(self).messages@.update(i, *final(m))
                    && final(self).source@ == old(self).source@,
                None => r is None && final(self)@ == old(self)@,
            },
    {
        match self.position(id) {
            Some(i) => Some(&mut self.messages[i]),
            None => None,
        }
    }
}

/// The reply a catalog makes to a received primary: a data message that
/// waits for a reply (wait bit, or an odd function), whose header has an
/// inbound auto-reply primary with a secondary whose body reads. Gives the
/// indices of the primary and the secondary.
pub open spec fn catalog_reply(ms: Seq<PrefabV>, h: HsmsHeader, role: Role) -> Option<(int, int)> {
    if h.s_type != 0 || (!h.wbit && h.function % 2 == 0) {
        None
    } else {
        match first_where(ms, auto_reply_primary(role, h.stream as i32, h.function as i32)) {
            None => None,
            Some(i) => match reply_index(ms, role, ms[i]) {
                None => None,
                Some(j) => if message_body(ms[j]) is Ok {
                    Some((i, j))
                } else {
                    None
                },
            },
        }
    }
}

/// `auto-reply SxFy → SxFy (name)` for a primary and its reply.
pub open spec fn auto_reply_note(p: PrefabV, r: PrefabV) -> Seq<char> {
    "auto-reply "@ + sx_fy_text(p.stream as int, p.function as int) + " \u{2192} "@ + sx_fy_text(
        r.stream as int,
        r.function as int,
    ) + " ("@ + r.message_name + ")"@
}

/// A catalog reply to send: header, body and the note to log once sent.
#[derive(Debug)]
pub struct CatalogReply {
    pub stream: i32,
    pub function: i32,
    pub body: Secs2,
    pub note: String,
}

/// The catalog's auto-reply to a received primary with header `h`, if it
/// makes one.
pub fn try_catalog_auto_reply(catalog: &MessageCatalog, h: &HsmsHeader, role: &Role) -> (r: Option<CatalogReply>)
    ensures
        match (r, catalog_reply(catalog@.messages, *h, *role)) {
            (Some(c), Some((i, j))) => {
                let ms = catalog@.messages;
                &&& c.stream == ms[j].stream
                &&& c.function == ms[j].function
                &&& message_body(ms[j]) == Ok::<Item, MessageBodyFault>(c.body@)
                &&& c.note@ == auto_reply_note(ms[i], ms[j])
            },
            (None, None) => true,
            _ => false,
        },
{
    if !h.is_data_message() {
        return None;
    }
    if !h.wbit && h.function % 2 == 0 {
        return None;
    }
    proof {
        lemma_first_where(catalog@.messages, auto_reply_primary(*role, h.stream as i32, h.function as i32));
    }
    let req = match catalog.find_auto_reply_primary(role, h.stream as i32, h.function as i32) {
        Some(m) => m,
        None => {
            return None;
        },
    };
    let reply = match catalog.find_reply_for(role, req) {
        Some(m) => m,
        None => {
            return None;
        },
    };
    let body = match reply.body_secs2() {
        Ok(b) => b,
        Err(_) => {
            return None;
        },
    };
    let mut v = chars_of("auto-reply ");
    push_all(&mut v, &chars_of(req.sx_fy().as_str()));
    push_str(&mut v, " \u{2192} ");
    push_all(&mut v, &chars_of(reply.sx_fy().as_str()));
    push_str(&mut v, " (");
    push_str(&mut v, reply.message_name.as_str());
    push_str(&mut v, ")");
    Some(CatalogReply { stream: reply.stream, function: reply.function, body, note: string_of(&v) })
}


impl Clone for MessageCatalog {
    fn clone(&self) -> (r: Self)
        ensures
            r@ == self@,
    {
        let mut ms: Vec<PrefabMessage> = Vec::new();
        let mut i: usize = 0;
        while i < self.messages.len()
            invariant
                i <= self.messages@.len(),
                ms@.len() == i,
                forall|k: int| 0 <= k < i ==> (#[trigger] ms@[k])@ == self.messages@[k]@,
            decreases self.messages.len() - i,
        {
            ms.push(self.messages[i].clone());
            i += 1;
        }
        let r = MessageCatalog { source: self.source.clone(), messages: ms };
        assert(prefabs(r.messages@) =~= prefabs(self.messages@));
        r
    }
}

impl Default for MessageCatalog {
    fn default() -> (r: Self)
        ensures
            r@.source == Seq::<char>::empty(),
            r@.messages == Seq::<PrefabV>::empty(),
    {
        MessageCatalog::new()
    }
}


/// After `upsert(msg)`, looking up `msg`'s id finds `msg`.
pub proof fn lemma_upsert_then_get(ms: Seq<PrefabV>, msg: PrefabV)
    ensures
        match first_where(upserted(ms, msg), id_is(msg.id)) {
            Some(i) => upserted(ms, msg)[i] == msg,
            None => false,
        },
{
    lemma_first_where(ms, id_is(msg.id));
    let r = upserted(ms, msg);
    match first_where(ms, id_is(msg.id)) {
        Some(i) => {
            assert forall|k: int| 0 <= k < i implies !(id_is(msg.id))(#[trigger] r[k]) by {
                assert(r[k] == ms[k]);
            }
            lemma_first_where_unique(r, id_is(msg.id), i);
        },
        None => {
            assert forall|k: int| 0 <= k < ms.len() implies !(id_is(msg.id))(#[trigger] r[k]) by {
                assert(r[k] == ms[k]);
            }
            lemma_first_where_unique(r, id_is(msg.id), ms.len() as int);
        },
    }
}

/// `upsert(msg)` leaves the messages with other ids as they were, in order.
pub proof fn lemma_upsert_keeps_others(ms: Seq<PrefabV>, msg: PrefabV)
    ensures
        upserted(ms, msg).filter(id_not(msg.id)) == ms.filter(id_not(msg.id)),
{
    lemma_first_where(ms, id_is(msg.id));
    match first_where(ms, id_is(msg.id)) {
        Some(i) => {
            let r = ms.update(i, msg);
            assert(ms =~= ms.take(i) + seq![ms[i]] + ms.skip(i + 1));
            assert(r =~= ms.take(i) + seq![msg] + ms.skip(i + 1));
            Seq::filter_distributes_over_add(ms.take(i) + seq![ms[i]], ms.skip(i + 1), id_not(msg.id));
            Seq::filter_distributes_over_add(ms.take(i) + seq![msg], ms.skip(i + 1), id_not(msg.id));
            Seq::filter_distributes_over_add(ms.take(i), seq![ms[i]], id_not(msg.id));
            Seq::filter_distributes_over_add(ms.take(i), seq![msg], id_not(msg.id));
            reveal_with_fuel(Seq::filter, 2);
            assert((id_is(msg.id))(ms[i]));
            assert(!(id_not(msg.id))(ms[i]));
            assert(seq![ms[i]].filter(id_not(msg.id)) =~= Seq::<PrefabV>::empty()) by {
                assert(seq![ms[i]].drop_last() =~= Seq::<PrefabV>::empty());
                assert(seq![ms[i]].last() == ms[i]);
            }
            assert(!(id_not(msg.id))(msg));
            assert(seq![msg].filter(id_not(msg.id)) =~= Seq::<PrefabV>::empty()) by {
                assert(seq![msg].drop_last() =~= Seq::<PrefabV>::empty());
                assert(seq![msg].last() == msg);
            }
        },
        None => {
            reveal(Seq::filter);
            assert(ms.push(msg).drop_last() =~= ms);
        },
    }
}

/// After `remove(id)`, no message has that id.
pub proof fn lemma_remove_then_get(ms: Seq<PrefabV>, id: Seq<char>)
    ensures
        first_where(without_id(ms, id), id_is(id)) is None,
{
    let r = without_id(ms, id);
    assert forall|k: int| 0 <= k < r.len() implies !(id_is(id))(#[trigger] r[k]) by {
        ms.lemma_filter_contains_rev(id_not(id), r[k]);
        assert(r.contains(r[k]));
    }
    lemma_first_where_unique(r, id_is(id), r.len() as int);
}

} // verus!
