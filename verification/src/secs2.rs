//! SECS-II data items.

use vstd::prelude::*;

verus! {

/// One SECS-II data item.
///
/// Floating-point items keep each value as its decimal text: the float
/// arithmetic itself stays with the caller.
#[derive(Debug)]
pub enum Secs2 {
    Empty,
    List(Vec<Secs2>),
    Ascii(String),
    Binary(Vec<u8>),
    Boolean(Vec<bool>),
    Uint1(Vec<u8>),
    Uint2(Vec<u16>),
    Uint4(Vec<u32>),
    Uint8(Vec<u64>),
    Int1(Vec<i8>),
    Int2(Vec<i16>),
    Int4(Vec<i32>),
    Int8(Vec<i64>),
    Float4(Vec<String>),
    Float8(Vec<String>),
    Jis8(Vec<u8>),
    Unicode(Vec<u8>),
}

/// Mathematical model of a [`Secs2`] item.
pub enum Item {
    Empty,
    List(Seq<Item>),
    Ascii(Seq<char>),
    Binary(Seq<u8>),
    Boolean(Seq<bool>),
    Uint1(Seq<u8>),
    Uint2(Seq<u16>),
    Uint4(Seq<u32>),
    Uint8(Seq<u64>),
    Int1(Seq<i8>),
    Int2(Seq<i16>),
    Int4(Seq<i32>),
    Int8(Seq<i64>),
    Float4(Seq<Seq<char>>),
    Float8(Seq<Seq<char>>),
    Jis8(Seq<u8>),
    Unicode(Seq<u8>),
}

pub open spec fn strings_view(v: Seq<String>) -> Seq<Seq<char>> {
    Seq::new(v.len(), |i: int| v[i]@)
}

/// Models of a sequence of items, in order.
pub open spec fn models(v: Seq<Secs2>) -> Seq<Item>
    decreases v, 1int,
{
    if v.len() == 0 {
        Seq::empty()
    } else {
        models(v.drop_last()).push(v.last().model())
    }
}

impl Secs2 {
    pub open spec fn model(&self) -> Item
        decreases self, 0int,
    {
        match self {
            Secs2::Empty => Item::Empty,
            Secs2::List(v) => Item::List(models(v@)),
            Secs2::Ascii(s) => Item::Ascii(s@),
            Secs2::Binary(b) => Item::Binary(b@),
            Secs2::Boolean(b) => Item::Boolean(b@),
            Secs2::Uint1(b) => Item::Uint1(b@),
            Secs2::Uint2(b) => Item::Uint2(b@),
            Secs2::Uint4(b) => Item::Uint4(b@),
            Secs2::Uint8(b) => Item::Uint8(b@),
            Secs2::Int1(b) => Item::Int1(b@),
            Secs2::Int2(b) => Item::Int2(b@),
            Secs2::Int4(b) => Item::Int4(b@),
            Secs2::Int8(b) => Item::Int8(b@),
            Secs2::Float4(b) => Item::Float4(strings_view(b@)),
            Secs2::Float8(b) => Item::Float8(strings_view(b@)),
            Secs2::Jis8(b) => Item::Jis8(b@),
            Secs2::Unicode(b) => Item::Unicode(b@),
        }
    }
}

pub proof fn lemma_models(v: Seq<Secs2>)
    ensures
        models(v).len() == v.len(),
        forall|i: int| 0 <= i < v.len() ==> #[trigger] models(v)[i] == v[i]@,
    decreases v.len(),
{
    if v.len() > 0 {
        lemma_models(v.drop_last());
        assert forall|i: int| 0 <= i < v.len() implies #[trigger] models(v)[i] == v[i]@ by {
            if i < v.len() - 1 {
                assert(v.drop_last()[i] == v[i]);
            }
        }
    }
}

pub proof fn lemma_models_take(v: Seq<Secs2>, i: int)
    requires
        0 <= i < v.len(),
    ensures
        models(v.take(i + 1)) == models(v.take(i)).push(v[i]@),
        models(v.take(i + 1)).drop_last() == models(v.take(i)),
        models(v.take(i + 1)).last() == v[i]@,
{
    assert(v.take(i + 1).drop_last() =~= v.take(i));
    assert(models(v.take(i)).push(v[i]@).drop_last() =~= models(v.take(i)));
}

/// The item reached by following list indices `path` from `item`.
pub open spec fn item_at(item: Item, path: Seq<usize>) -> Option<Item>
    decreases path.len(),
{
    if path.len() == 0 {
        Some(item)
    } else {
        match item {
            Item::List(v) => if path[0] < v.len() {
                item_at(v[path[0] as int], path.drop_first())
            } else {
                None
            },
            _ => None,
        }
    }
}

/// Number of values an item holds: children of a list, characters of text,
/// elements of an array, zero for the empty item.
pub open spec fn item_size(item: Item) -> nat {
    match item {
        Item::Empty => 0,
        Item::List(v) => v.len(),
        Item::Ascii(v) => v.len(),
        Item::Binary(v) => v.len(),
        Item::Boolean(v) => v.len(),
        Item::Uint1(v) => v.len(),
        Item::Uint2(v) => v.len(),
        Item::Uint4(v) => v.len(),
        Item::Uint8(v) => v.len(),
        Item::Int1(v) => v.len(),
        Item::Int2(v) => v.len(),
        Item::Int4(v) => v.len(),
        Item::Int8(v) => v.len(),
        Item::Float4(v) => v.len(),
        Item::Float8(v) => v.len(),
        Item::Jis8(v) => v.len(),
        Item::Unicode(v) => v.len(),
    }
}

impl Clone for Secs2 {
    fn clone(&self) -> (r: Self)
        ensures
            r@ == self@,
        decreases *self,
    {
        match self {
            Secs2::Empty => Secs2::Empty,
            Secs2::List(v) => Secs2::List(clone_items(v)),
            Secs2::Ascii(s) => Secs2::Ascii(s.clone()),
            Secs2::Binary(b) => Secs2::Binary(b.clone()),
            Secs2::Boolean(b) => Secs2::Boolean(b.clone()),
            Secs2::Uint1(b) => Secs2::Uint1(b.clone()),
            Secs2::Uint2(b) => Secs2::Uint2(b.clone()),
            Secs2::Uint4(b) => Secs2::Uint4(b.clone()),
            Secs2::Uint8(b) => Secs2::Uint8(b.clone()),
            Secs2::Int1(b) => Secs2::Int1(b.clone()),
            Secs2::Int2(b) => Secs2::Int2(b.clone()),
            Secs2::Int4(b) => Secs2::Int4(b.clone()),
            Secs2::Int8(b) => Secs2::Int8(b.clone()),
            Secs2::Float4(b) => Secs2::Float4(clone_strings(b)),
            Secs2::Float8(b) => Secs2::Float8(clone_strings(b)),
            Secs2::Jis8(b) => Secs2::Jis8(b.clone()),
            Secs2::Unicode(b) => Secs2::Unicode(b.clone()),
        }
    }
}

/// Element-wise copy of a vector of items.
pub fn clone_items(v: &Vec<Secs2>) -> (r: Vec<Secs2>)
    ensures
        models(r@) == models(v@),
    decreases v@,
{
    let mut out: Vec<Secs2> = Vec::new();
    let mut i: usize = 0;
    while i < v.len()
        invariant
            i <= v@.len(),
            models(out@) == models(v@.take(i as int)),
        decreases v.len() - i,
    {
        proof {
            lemma_models(out@);
        }
        let c = v[i].clone();
        let ghost prev = out@;
        out.push(c);
        assert(out@.drop_last() =~= prev);
        assert(v@.take(i + 1).drop_last() =~= v@.take(i as int));
        i += 1;
    }
    assert(v@.take(v@.len() as int) =~= v@);
    out
}

/// Element-wise copy of a vector of strings.
pub fn clone_strings(v: &Vec<String>) -> (r: Vec<String>)
    ensures
        strings_view(r@) == strings_view(v@),
{
    let mut r: Vec<String> = Vec::new();
    let mut i: usize = 0;
    while i < v.len()
        invariant
            i <= v@.len(),
            r@.len() == i,
            forall|k: int| 0 <= k < i ==> #[trigger] r@[k]@ == v@[k]@,
        decreases v.len() - i,
    {
        r.push(v[i].clone());
        i += 1;
    }
    assert(strings_view(r@) =~= strings_view(v@));
    r
}

impl Secs2 {
    /// `true` for the empty item (no body).
    pub fn is_empty_item(&self) -> (r: bool)
        ensures
            r == (self@ == Item::Empty),
    {
        match self {
            Secs2::Empty => true,
            _ => false,
        }
    }

    /// Number of values the item holds.
    pub fn size(&self) -> (r: usize)
        ensures
            r == item_size(self@),
    {
        proof {
            if let Secs2::List(v) = self {
                lemma_models(v@);
            }
        }
        match self {
            Secs2::Empty => 0,
            Secs2::List(v) => v.len(),
            Secs2::Ascii(s) => crate::text::chars_of(s.as_str()).len(),
            Secs2::Binary(b) => b.len(),
            Secs2::Boolean(b) => b.len(),
            Secs2::Uint1(b) => b.len(),
            Secs2::Uint2(b) => b.len(),
            Secs2::Uint4(b) => b.len(),
            Secs2::Uint8(b) => b.len(),
            Secs2::Int1(b) => b.len(),
            Secs2::Int2(b) => b.len(),
            Secs2::Int4(b) => b.len(),
            Secs2::Int8(b) => b.len(),
            Secs2::Float4(b) => b.len(),
            Secs2::Float8(b) => b.len(),
            Secs2::Jis8(b) => b.len(),
            Secs2::Unicode(b) => b.len(),
        }
    }

    /// The item reached by following list indices `path`.
    pub fn get_item(&self, path: &[usize]) -> (r: Option<Secs2>)
        ensures
            match r {
                Some(x) => item_at(self@, path@) == Some(x@),
                None => item_at(self@, path@) is None,
            },
    {
        let mut cur: &Secs2 = self;
        let mut i: usize = 0;
        assert(path@.skip(0) =~= path@);
        while i < path.len()
            invariant
                i <= path@.len(),
                item_at(self@, path@) == item_at(cur@, path@.skip(i as int)),
            decreases path.len() - i,
        {
            let ghost rest = path@.skip(i as int);
            assert(rest.drop_first() =~= path@.skip(i + 1));
            match cur {
                Secs2::List(v) => {
                    proof {
                        lemma_models(v@);
                    }
                    if path[i] < v.len() {
                        cur = &v[path[i]];
                    } else {
                        return None;
                    }
                },
                _ => {
                    return None;
                },
            }
            i += 1;
        }
        assert(path@.skip(i as int).len() == 0);
        Some(cur.clone())
    }

    /// The text of the ASCII item at `path`, if there is one.
    pub fn get_ascii_at(&self, path: &[usize]) -> (r: Option<String>)
        ensures
            match r {
                Some(s) => item_at(self@, path@) == Some(Item::Ascii(s@)),
                None => !(item_at(self@, path@) matches Some(Item::Ascii(_))),
            },
    {
        match self.get_item(path) {
            Some(Secs2::Ascii(s)) => Some(s),
            _ => None,
        }
    }
}

impl View for Secs2 {
    type V = Item;

    open spec fn view(&self) -> Item {
        self.model()
    }
}

} // verus!
