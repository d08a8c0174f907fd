//! The tag-tree data model: a self-describing tree of compound nodes, lists,
//! tagged arrays and scalars, used as the serialization substrate of the
//! codec. Floating-point scalars are carried as their raw bit patterns so
//! that the tree is plain data and passes through the codec untouched.

use vstd::prelude::*;
use vstd::string::StringExecFns;

use crate::primitives::ParseError;

verus! {

broadcast use vstd::std_specs::vec::group_vec_axioms;

/// One named entry of a compound node.
#[derive(Debug)]
pub struct TagEntry {
    pub name: String,
    pub value: TagNode,
}

/// A compound node: named entries in insertion order.
#[derive(Debug)]
pub struct TagCompound {
    pub entries: Vec<TagEntry>,
}

/// One node of the tag tree. `FloatBits` and `DoubleBits` carry the raw bit
/// patterns of 32-bit and 64-bit floating-point scalars.
#[derive(Debug)]
pub enum TagNode {
    Byte(i8),
    Short(i16),
    Int(i32),
    Long(i64),
    FloatBits(u32),
    DoubleBits(u64),
    ByteArray(Vec<i8>),
    Str(String),
    List(Vec<TagNode>),
    Compound(TagCompound),
    IntArray(Vec<i32>),
    LongArray(Vec<i64>),
}

/// The mathematical value of a compound entry.
pub struct TagEntryModel {
    pub name: Seq<char>,
    pub value: TagModel,
}

/// The mathematical value of a tag-tree node.
pub enum TagModel {
    Byte(i8),
    Short(i16),
    Int(i32),
    Long(i64),
    FloatBits(u32),
    DoubleBits(u64),
    ByteArray(Seq<i8>),
    Str(Seq<char>),
    List(Seq<TagModel>),
    Compound(Seq<TagEntryModel>),
    IntArray(Seq<i32>),
    LongArray(Seq<i64>),
}

/// The mathematical value an executable tag node stands for.
pub open spec fn tag_view(t: TagNode) -> TagModel
    decreases t,
{
    match t {
        TagNode::Byte(v) => TagModel::Byte(v),
        TagNode::Short(v) => TagModel::Short(v),
        TagNode::Int(v) => TagModel::Int(v),
        TagNode::Long(v) => TagModel::Long(v),
        TagNode::FloatBits(v) => TagModel::FloatBits(v),
        TagNode::DoubleBits(v) => TagModel::DoubleBits(v),
        TagNode::ByteArray(v) => TagModel::ByteArray(v@),
        TagNode::Str(s) => TagModel::Str(s@),
        TagNode::List(items) => {
            proof {
                vstd::std_specs::vec::axiom_vec_decreases_to_view(items);
            }
            TagModel::List(list_view(items@))
        },
        TagNode::Compound(c) => {
            proof {
                vstd::std_specs::vec::axiom_vec_decreases_to_view(c.entries);
            }
            TagModel::Compound(entries_view(c.entries@))
        },
        TagNode::IntArray(v) => TagModel::IntArray(v@),
        TagNode::LongArray(v) => TagModel::LongArray(v@),
    }
}

/// The mathematical values of a sequence of tag nodes, in order.
pub open spec fn list_view(items: Seq<TagNode>) -> Seq<TagModel>
    decreases items,
{
    if items.len() == 0 {
        Seq::empty()
    } else {
        seq![tag_view(items[0])] + list_view(items.drop_first())
    }
}

/// The mathematical values of a sequence of compound entries, in order.
pub open spec fn entries_view(es: Seq<TagEntry>) -> Seq<TagEntryModel>
    decreases es,
{
    if es.len() == 0 {
        Seq::empty()
    } else {
        seq![TagEntryModel { name: es[0].name@, value: tag_view(es[0].value) }] + entries_view(
            es.drop_first(),
        )
    }
}

/// The mathematical value of a compound node: its entries in order.
pub open spec fn compound_view(c: TagCompound) -> Seq<TagEntryModel> {
    entries_view(c.entries@)
}

/// A node-sequence view maps each element in place.
pub proof fn lemma_list_view(items: Seq<TagNode>)
    ensures
        list_view(items).len() == items.len(),
        forall|i: int| 0 <= i < items.len() ==> #[trigger] list_view(items)[i] == tag_view(items[i]),
    decreases items.len(),
{
    if items.len() > 0 {
        lemma_list_view(items.drop_first());
    }
}

/// An entry-sequence view maps each entry in place.
pub proof fn lemma_entries_view(es: Seq<TagEntry>)
    ensures
        entries_view(es).len() == es.len(),
        forall|i: int|
            0 <= i < es.len() ==> #[trigger] entries_view(es)[i] == (TagEntryModel {
                name: es[i].name@,
                value: tag_view(es[i].value),
            }),
    decreases es.len(),
{
    if es.len() > 0 {
        lemma_entries_view(es.drop_first());
    }
}

/// A node's view lies in the same variant as the node.
pub proof fn lemma_tag_view_kind(t: TagNode)
    ensures
        (tag_view(t) is Byte) == (t is Byte),
        (tag_view(t) is Short) == (t is Short),
        (tag_view(t) is Int) == (t is Int),
        (tag_view(t) is Long) == (t is Long),
        (tag_view(t) is FloatBits) == (t is FloatBits),
        (tag_view(t) is DoubleBits) == (t is DoubleBits),
        (tag_view(t) is ByteArray) == (t is ByteArray),
        (tag_view(t) is Str) == (t is Str),
        (tag_view(t) is List) == (t is List),
        (tag_view(t) is Compound) == (t is Compound),
        (tag_view(t) is IntArray) == (t is IntArray),
        (tag_view(t) is LongArray) == (t is LongArray),
{
}

/// The value of the first entry with the given name, if any.
pub open spec fn spec_lookup(entries: Seq<TagEntryModel>, name: Seq<char>) -> Option<TagModel>
    decreases entries.len(),
{
    if entries.len() == 0 {
        None
    } else if entries[0].name == name {
        Some(entries[0].value)
    } else {
        spec_lookup(entries.drop_first(), name)
    }
}

impl TagCompound {
    /// An empty compound node.
    pub fn new() -> (r: TagCompound)
        ensures
            compound_view(r) =~= Seq::<TagEntryModel>::empty(),
    {
        TagCompound { entries: Vec::new() }
    }

    /// Appends a named entry.
    pub fn insert(&mut self, name: String, value: TagNode)
        ensures
            compound_view(*final(self)) =~= compound_view(*old(self)).push(
                TagEntryModel { name: name@, value: tag_view(value) },
            ),
    {
        let ghost old_es = self.entries@;
        self.entries.push(TagEntry { name, value });
        proof {
            lemma_entries_view(old_es);
            lemma_entries_view(self.entries@);
            assert(compound_view(*self) =~= compound_view(*old(self)).push(
                TagEntryModel { name: name@, value: tag_view(value) },
            ));
        }
    }

    /// The first entry with the given name, if any.
    pub fn get<'a>(&'a self, field: &str) -> (r: Option<&'a TagNode>)
        ensures
            match r {
                Some(v) => spec_lookup(compound_view(*self), field@) == Some(tag_view(*v)),
                None => spec_lookup(compound_view(*self), field@) is None,
            },
    {
        let key: String = String::from_str(field);
        let ghost full = compound_view(*self);
        proof {
            lemma_entries_view(self.entries@);
            assert(full.skip(0) =~= full);
        }
        let mut i: usize = 0;
        while i < self.entries.len()
            invariant
                i <= self.entries@.len(),
                full == compound_view(*self),
                full.len() == self.entries@.len(),
                forall|j: int|
                    0 <= j < full.len() ==> #[trigger] full[j] == (TagEntryModel {
                        name: self.entries@[j].name@,
                        value: tag_view(self.entries@[j].value),
                    }),
                key@ == field@,
                spec_lookup(full, field@) == spec_lookup(full.skip(i as int), field@),
            decreases self.entries@.len() - i,
        {
            if self.entries[i].name == key {
                proof {
                    assert(full.skip(i as int)[0] == full[i as int]);
                }
                return Some(&self.entries[i].value);
            }
            proof {
                assert(full.skip(i as int)[0] == full[i as int]);
                assert(full.skip(i as int).drop_first() =~= full.skip(i + 1 as int));
            }
            i = i + 1;
        }
        proof {
            assert(full.skip(i as int).len() == 0);
        }
        None
    }
}

/// A fresh vector holding the same values as the given one.
pub fn copy_vec<T: Copy>(src: &Vec<T>) -> (r: Vec<T>)
    ensures
        r@ == src@,
{
    let mut out: Vec<T> = Vec::new();
    let mut i: usize = 0;
    while i < src.len()
        invariant
            i <= src@.len(),
            out@ == src@.subrange(0, i as int),
        decreases src@.len() - i,
    {
        out.push(src[i]);
        proof {
            assert(out@ =~= src@.subrange(0, i + 1 as int));
        }
        i = i + 1;
    }
    proof {
        assert(out@ =~= src@);
    }
    out
}

impl TagNode {
    /// A deep copy of the node, equal to the original at the value level.
    pub fn deep_clone(&self) -> (r: TagNode)
        ensures
            tag_view(r) == tag_view(*self),
        decreases *self,
    {
        match self {
            TagNode::Byte(v) => TagNode::Byte(*v),
            TagNode::Short(v) => TagNode::Short(*v),
            TagNode::Int(v) => TagNode::Int(*v),
            TagNode::Long(v) => TagNode::Long(*v),
            TagNode::FloatBits(v) => TagNode::FloatBits(*v),
            TagNode::DoubleBits(v) => TagNode::DoubleBits(*v),
            TagNode::ByteArray(v) => TagNode::ByteArray(copy_vec(v)),
            TagNode::Str(s) => TagNode::Str(s.clone()),
            TagNode::List(items) => {
                let mut out: Vec<TagNode> = Vec::new();
                let mut i: usize = 0;
                #[verifier::loop_isolation(false)]
                while i < items.len()
                    invariant
                        i <= items@.len(),
                        out@.len() == i,
                        forall|j: int|
                            0 <= j < i ==> #[trigger] tag_view(out@[j]) == tag_view(items@[j]),
                    decreases items@.len() - i,
                {
                    proof {
                        vstd::std_specs::vec::axiom_vec_index_decreases(*items, i as int);
                    }
                    let c = items[i].deep_clone();
                    out.push(c);
                    i = i + 1;
                }
                proof {
                    lemma_list_view(out@);
                    lemma_list_view(items@);
                    assert(list_view(out@) =~= list_view(items@));
                }
                TagNode::List(out)
            },
            TagNode::Compound(c) => TagNode::Compound(c.deep_clone()),
            TagNode::IntArray(v) => TagNode::IntArray(copy_vec(v)),
            TagNode::LongArray(v) => TagNode::LongArray(copy_vec(v)),
        }
    }
}

impl TagCompound {
    /// A deep copy of the compound, equal to the original at the value level.
    pub fn deep_clone(&self) -> (r: TagCompound)
        ensures
            compound_view(r) == compound_view(*self),
        decreases *self,
    {
        let mut out: Vec<TagEntry> = Vec::new();
        let mut i: usize = 0;
        while i < self.entries.len()
            invariant
                i <= self.entries@.len(),
                out@.len() == i,
                forall|j: int|
                    0 <= j < i ==> #[trigger] out@[j].name@ == self.entries@[j].name@ && tag_view(
                        out@[j].value,
                    ) == tag_view(self.entries@[j].value),
            decreases self.entries@.len() - i,
        {
            proof {
                vstd::std_specs::vec::axiom_vec_index_decreases(self.entries, i as int);
            }
            let name = self.entries[i].name.clone();
            let value = self.entries[i].value.deep_clone();
            out.push(TagEntry { name, value });
            i = i + 1;
        }
        let r = TagCompound { entries: out };
        proof {
            lemma_entries_view(out@);
            lemma_entries_view(self.entries@);
            assert(compound_view(r) =~= compound_view(*self));
        }
        r
    }
}

/// Whether two byte vectors hold the same values.
fn eq_i8_vec(a: &Vec<i8>, b: &Vec<i8>) -> (r: bool)
    ensures
        r == (a@ == b@),
{
    if a.len() != b.len() {
        return false;
    }
    let mut i: usize = 0;
    while i < a.len()
        invariant
            i <= a@.len(),
            a@.len() == b@.len(),
            forall|j: int| 0 <= j < i ==> a@[j] == b@[j],
        decreases a@.len() - i,
    {
        if a[i] != b[i] {
            return false;
        }
        i = i + 1;
    }
    proof {
        assert(a@ =~= b@);
    }
    true
}

/// Whether two 32-bit integer vectors hold the same values.
fn eq_i32_vec(a: &Vec<i32>, b: &Vec<i32>) -> (r: bool)
    ensures
        r == (a@ == b@),
{
    if a.len() != b.len() {
        return false;
    }
    let mut i: usize = 0;
    while i < a.len()
        invariant
            i <= a@.len(),
            a@.len() == b@.len(),
            forall|j: int| 0 <= j < i ==> a@[j] == b@[j],
        decreases a@.len() - i,
    {
        if a[i] != b[i] {
            return false;
        }
        i = i + 1;
    }
    proof {
        assert(a@ =~= b@);
    }
    true
}

/// Whether two 64-bit integer vectors hold the same values.
fn eq_i64_vec(a: &Vec<i64>, b: &Vec<i64>) -> (r: bool)
    ensures
        r == (a@ == b@),
{
    if a.len() != b.len() {
        return false;
    }
    let mut i: usize = 0;
    while i < a.len()
        invariant
            i <= a@.len(),
            a@.len() == b@.len(),
            forall|j: int| 0 <= j < i ==> a@[j] == b@[j],
        decreases a@.len() - i,
    {
        if a[i] != b[i] {
            return false;
        }
        i = i + 1;
    }
    proof {
        assert(a@ =~= b@);
    }
    true
}

impl TagNode {
    /// Whether two nodes carry the same tag value.
    pub fn matches(&self, other: &TagNode) -> (r: bool)
        ensures
            r == (tag_view(*self) == tag_view(*other)),
        decreases *self,
    {
        match (self, other) {
            (TagNode::Byte(a), TagNode::Byte(b)) => *a == *b,
            (TagNode::Short(a), TagNode::Short(b)) => *a == *b,
            (TagNode::Int(a), TagNode::Int(b)) => *a == *b,
            (TagNode::Long(a), TagNode::Long(b)) => *a == *b,
            (TagNode::FloatBits(a), TagNode::FloatBits(b)) => *a == *b,
            (TagNode::DoubleBits(a), TagNode::DoubleBits(b)) => *a == *b,
            (TagNode::ByteArray(a), TagNode::ByteArray(b)) => eq_i8_vec(a, b),
            (TagNode::Str(a), TagNode::Str(b)) => *a == *b,
            (TagNode::List(a), TagNode::List(b)) => {
                proof {
                    lemma_list_view(a@);
                    lemma_list_view(b@);
                }
                if a.len() != b.len() {
                    return false;
                }
                let mut i: usize = 0;
                #[verifier::loop_isolation(false)]
                while i < a.len()
                    invariant
                        i <= a@.len(),
                        forall|j: int|
                            0 <= j < i ==> #[trigger] tag_view(a@[j]) == tag_view(b@[j]),
                    decreases a@.len() - i,
                {
                    proof {
                        vstd::std_specs::vec::axiom_vec_index_decreases(*a, i as int);
                    }
                    if !a[i].matches(&b[i]) {
                        proof {
                            assert(list_view(a@)[i as int] != list_view(b@)[i as int]);
                        }
                        return false;
                    }
                    i = i + 1;
                }
                proof {
                    assert(list_view(a@) =~= list_view(b@));
                }
                true
            },
            (TagNode::Compound(a), TagNode::Compound(b)) => a.matches(b),
            (TagNode::IntArray(a), TagNode::IntArray(b)) => eq_i32_vec(a, b),
            (TagNode::LongArray(a), TagNode::LongArray(b)) => eq_i64_vec(a, b),
            _ => {
                proof {
                    lemma_tag_view_kind(*self);
                    lemma_tag_view_kind(*other);
                }
                false
            },
        }
    }
}

impl TagCompound {
    /// Whether two compound nodes carry the same entries, names and values
    /// alike, in the same order.
    pub fn matches(&self, other: &TagCompound) -> (r: bool)
        ensures
            r == (compound_view(*self) == compound_view(*other)),
        decreases *self,
    {
        proof {
            lemma_entries_view(self.entries@);
            lemma_entries_view(other.entries@);
        }
        if self.entries.len() != other.entries.len() {
            return false;
        }
        let mut i: usize = 0;
        #[verifier::loop_isolation(false)]
        while i < self.entries.len()
            invariant
                i <= self.entries@.len(),
                forall|j: int|
                    0 <= j < i ==> #[trigger] compound_view(*self)[j] == compound_view(*other)[j],
            decreases self.entries@.len() - i,
        {
            proof {
                vstd::std_specs::vec::axiom_vec_index_decreases(self.entries, i as int);
            }
            if !(self.entries[i].name == other.entries[i].name) {
                proof {
                    assert(compound_view(*self)[i as int] != compound_view(*other)[i as int]);
                }
                return false;
            }
            if !self.entries[i].value.matches(&other.entries[i].value) {
                proof {
                    assert(compound_view(*self)[i as int] != compound_view(*other)[i as int]);
                }
                return false;
            }
            i = i + 1;
        }
        proof {
            assert(compound_view(*self) =~= compound_view(*other));
        }
        true
    }
}

/// Reads a required 32-bit integer field of a compound node; any other tag
/// kind, or an absent field, fails with `InvalidFormat`.
pub fn get_int_field(nbt: &TagCompound, field: &str) -> (r: Result<i32, ParseError>)
    ensures
        match r {
            Ok(v) => spec_lookup(compound_view(*nbt), field@) == Some(TagModel::Int(v)),
            Err(e) => {
                &&& e == ParseError::InvalidFormat
                &&& !(spec_lookup(compound_view(*nbt), field@) matches Some(TagModel::Int(_)))
            },
        },
{
    match nbt.get(field) {
        Some(TagNode::Int(v)) => Ok(*v),
        _ => Err(ParseError::InvalidFormat),
    }
}

/// Reads a required integer-array field of a compound node; any other tag
/// kind, or an absent field, fails with `InvalidFormat`.
pub fn get_int_array(nbt: &TagCompound, field: &str) -> (r: Result<Vec<i32>, ParseError>)
    ensures
        match r {
            Ok(v) => spec_lookup(compound_view(*nbt), field@) == Some(TagModel::IntArray(v@)),
            Err(e) => {
                &&& e == ParseError::InvalidFormat
                &&& !(spec_lookup(compound_view(*nbt), field@) matches Some(
                    TagModel::IntArray(_),
                ))
            },
        },
{
    match nbt.get(field) {
        Some(TagNode::IntArray(v)) => Ok(copy_vec(v)),
        _ => Err(ParseError::InvalidFormat),
    }
}

} // verus!
