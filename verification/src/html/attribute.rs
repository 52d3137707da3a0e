//! A single tag attribute, built one character at a time.

use vstd::prelude::*;

use crate::text::push_char;

verus! {

/// Mathematical counterpart: the two character sequences.
pub struct AttrV {
    pub name: Seq<char>,
    pub value: Seq<char>,
}

/// One character added to an attribute, on the side `is_name` selects.
pub open spec fn attr_add(a: AttrV, c: char, is_name: bool) -> AttrV {
    if is_name {
        AttrV { name: a.name.push(c), value: a.value }
    } else {
        AttrV { name: a.name, value: a.value.push(c) }
    }
}

pub open spec fn attr_empty() -> AttrV {
    AttrV { name: Seq::<char>::empty(), value: Seq::<char>::empty() }
}

#[derive(Debug, PartialEq, Eq)]
pub struct Attribute {
    name: String,
    value: String,
}

pub open spec fn attrs_view(v: Seq<Attribute>) -> Seq<AttrV> {
    v.map_values(|a: Attribute| a@)
}

impl View for Attribute {
    type V = AttrV;

    closed spec fn view(&self) -> AttrV {
        AttrV { name: self.name@, value: self.value@ }
    }
}

impl Clone for Attribute {
    fn clone(&self) -> (r: Self)
        ensures
            r@ == self@,
    {
        Attribute { name: self.name.clone(), value: self.value.clone() }
    }
}

/// No attributes seen mathematically are still no attributes.
pub proof fn lemma_attrs_view_empty()
    ensures
        attrs_view(Seq::<Attribute>::empty()) == Seq::<AttrV>::empty(),
{
    assert(attrs_view(Seq::<Attribute>::empty()) =~= Seq::<AttrV>::empty());
}

/// An element-wise copy of an attribute list.
pub fn clone_attrs(v: &Vec<Attribute>) -> (r: Vec<Attribute>)
    ensures
        attrs_view(r@) == attrs_view(v@),
{
    let mut r: Vec<Attribute> = Vec::new();
    let mut i: usize = 0;
    while i < v.len()
        invariant
            i <= v@.len(),
            attrs_view(r@) =~= attrs_view(v@.subrange(0, i as int)),
        decreases v@.len() - i,
    {
        let ghost r0 = r@;
        r.push(v[i].clone());
        proof {
            assert(attrs_view(r@) =~= attrs_view(r0).push(v@[i as int]@));
            assert(v@.subrange(0, i + 1) =~= v@.subrange(0, i as int).push(v@[i as int]));
            assert(attrs_view(v@.subrange(0, i as int).push(v@[i as int])) =~= attrs_view(
                v@.subrange(0, i as int),
            ).push(v@[i as int]@));
        }
        i = i + 1;
    }
    proof {
        assert(v@.subrange(0, v@.len() as int) =~= v@);
        assert(attrs_view(r@) =~= attrs_view(v@));
    }
    r
}

impl Attribute {
    pub fn new() -> (r: Self)
        ensures
            r@ == attr_empty(),
    {
        Self { name: String::new(), value: String::new() }
    }

    /// Appends `c` to the name when `is_name` holds, to the value
    /// otherwise.
    pub fn add_char(&mut self, c: char, is_name: bool)
        ensures
            final(self)@ == attr_add(old(self)@, c, is_name),
    {
        if is_name {
            push_char(&mut self.name, c);
        } else {
            push_char(&mut self.value, c);
        }
    }

    pub fn name(&self) -> (r: String)
        ensures
            r@ == self@.name,
    {
        self.name.clone()
    }

    pub fn value(&self) -> (r: String)
        ensures
            r@ == self@.value,
    {
        self.value.clone()
    }
}

} // verus!
