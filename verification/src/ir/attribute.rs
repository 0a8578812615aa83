//! Attributes: interned, value-like IR metadata with structural
//! equality.

use vstd::prelude::*;
use crate::ir::ty::{Type, type_is_float, type_text, type_wf};
use crate::text::{dec_seq, hex_seq, is_dec_digit, is_hex_digit};

verus! {

/// An attribute value.
///
/// Attribute equality is structural: kind plus payload, never
/// identity.
#[derive(Debug, PartialEq, Eq)]
#[allow(inconsistent_fields)]
pub enum Attribute {
    /// The unit attribute: presence alone carries the information.
    Unit,
    /// A boolean attribute.
    Boolean { value: bool },
    /// An integer attribute together with its integer or index type.
    Integer { value: i64, ty: Type },
    /// A float attribute, carried as its IEEE bit pattern together
    /// with its float type.
    Float { bits: u64, ty: Type },
    /// A string attribute.
    Str { value: String },
    /// A flat reference to a symbol by name.
    FlatSymbolRef { symbol: String },
    /// An array of attributes.
    Array { elements: Vec<Attribute> },
    /// A dialect attribute in its textual form, carried opaquely.
    Opaque { text: String },
}

/// The mathematical value of an attribute.
#[allow(inconsistent_fields)]
pub enum AttrV {
    Unit,
    Boolean { value: bool },
    Integer { value: int, ty: Type },
    Float { bits: nat, ty: Type },
    Str { value: Seq<char> },
    FlatSymbolRef { symbol: Seq<char> },
    Array { elements: Seq<AttrV> },
    Opaque { text: Seq<char> },
}

pub open spec fn attr_view(a: Attribute) -> AttrV
    decreases a,
{
    match a {
        Attribute::Unit => AttrV::Unit,
        Attribute::Boolean { value } => AttrV::Boolean { value },
        Attribute::Integer { value, ty } => AttrV::Integer { value: value as int, ty },
        Attribute::Float { bits, ty } => AttrV::Float { bits: bits as nat, ty },
        Attribute::Str { value } => AttrV::Str { value: value@ },
        Attribute::FlatSymbolRef { symbol } => AttrV::FlatSymbolRef { symbol: symbol@ },
        Attribute::Array { elements } => AttrV::Array { elements: attrs_view(elements@) },
        Attribute::Opaque { text } => AttrV::Opaque { text: text@ },
    }
}

pub open spec fn attrs_view(s: Seq<Attribute>) -> Seq<AttrV>
    decreases s,
{
    if s.len() == 0 {
        Seq::empty()
    } else {
        seq![attr_view(s[0])] + attrs_view(s.drop_first())
    }
}

impl View for Attribute {
    type V = AttrV;

    open spec fn view(&self) -> AttrV {
        attr_view(*self)
    }
}

pub proof fn lemma_attrs_view_len(s: Seq<Attribute>)
    ensures
        attrs_view(s).len() == s.len(),
        forall|i: int| 0 <= i < s.len() ==> attrs_view(s)[i] == attr_view(#[trigger] s[i]),
    decreases s,
{
    if s.len() > 0 {
        lemma_attrs_view_len(s.drop_first());
        assert forall|i: int| 0 <= i < s.len()
            implies attrs_view(s)[i] == attr_view(s[i]) by {
            if i > 0 {
                assert(attrs_view(s.drop_first())[i - 1] == attr_view(s.drop_first()[i - 1]));
                assert(s.drop_first()[i - 1] == s[i]);
            }
        }
    }
}

impl Clone for Attribute {
    /// Clones the attribute; the copy has the same value.
    fn clone(&self) -> (r: Self)
        ensures
            r@ == self@,
        decreases self,
    {
        match self {
            Attribute::Unit => Attribute::Unit,
            Attribute::Boolean { value } => Attribute::Boolean { value: *value },
            Attribute::Integer { value, ty } => Attribute::Integer { value: *value, ty: *ty },
            Attribute::Float { bits, ty } => Attribute::Float { bits: *bits, ty: *ty },
            Attribute::Str { value } => Attribute::Str { value: value.clone() },
            Attribute::FlatSymbolRef { symbol } => Attribute::FlatSymbolRef {
                symbol: symbol.clone(),
            },
            Attribute::Array { elements } => {
                let mut copies: Vec<Attribute> = Vec::new();
                let mut i: usize = 0;
                while i < elements.len()
                    invariant
                        *self == (Attribute::Array { elements: *elements }),
                        i <= elements@.len(),
                        copies@.len() == i,
                        forall|j: int| 0 <= j < i
                            ==> attr_view(#[trigger] copies@[j]) == attr_view(elements@[j]),
                    decreases elements@.len() - i,
                {
                    proof {
                        broadcast use vstd::std_specs::vec::axiom_vec_index_decreases;
                        assert(decreases_to!(*self => self->Array_elements));
                        assert(self->Array_elements == *elements);
                        assert(decreases_to!(*elements => elements@[i as int]));
                    }
                    copies.push(elements[i].clone());
                    i = i + 1;
                }
                proof {
                    lemma_attrs_view_len(copies@);
                    lemma_attrs_view_len(elements@);
                    assert forall|j: int| 0 <= j < elements@.len()
                        implies attrs_view(copies@)[j] == attrs_view(elements@)[j] by {
                        assert(attr_view(copies@[j]) == attr_view(elements@[j]));
                    }
                    assert(attrs_view(copies@) =~= attrs_view(elements@));
                }
                Attribute::Array { elements: copies }
            },
            Attribute::Opaque { text } => Attribute::Opaque { text: text.clone() },
        }
    }
}

// ---------------------------------------------------------------------------
// Character classes of the textual forms
// ---------------------------------------------------------------------------

pub open spec fn is_letter(c: char) -> bool {
    (97 <= (c as u32) && (c as u32) <= 122) || (65 <= (c as u32) && (c as u32) <= 90)
}

pub open spec fn is_alnum(c: char) -> bool {
    is_letter(c) || is_dec_digit(c)
}

/// Characters allowed inside a string attribute payload.
pub open spec fn is_str_char(c: char) -> bool {
    c != '"' && c != '\\' && c != '\n'
}

/// Characters allowed inside a symbol name.
pub open spec fn is_sym_char(c: char) -> bool {
    is_alnum(c) || c == '_' || c == '.' || c == '$'
}

/// Characters allowed inside an opaque dialect attribute after the
/// leading `#`.
pub open spec fn is_opaque_char(c: char) -> bool {
    is_sym_char(c) || c == '<' || c == '>' || c == '-'
}

// ---------------------------------------------------------------------------
// Well-formedness
// ---------------------------------------------------------------------------

/// Whether a type may carry an integer attribute.
pub open spec fn type_is_integer_like(t: Type) -> bool {
    t is Index || t is Integer
}

/// Well-formedness of an attribute value: the side conditions under
/// which the value has a canonical textual form.
pub open spec fn attrv_wf(v: AttrV) -> bool
    decreases v,
{
    match v {
        AttrV::Unit => true,
        AttrV::Boolean { value: _ } => true,
        AttrV::Integer { value, ty } => {
            &&& type_is_integer_like(ty) && type_wf(ty)
            &&& i64::MIN <= value <= i64::MAX
        },
        AttrV::Float { bits, ty } => type_is_float(ty) && bits <= u64::MAX,
        AttrV::Str { value } => forall|i: int| 0 <= i < value.len() ==> is_str_char(#[trigger] value[i]),
        AttrV::FlatSymbolRef { symbol } => {
            &&& symbol.len() > 0
            &&& forall|i: int| 0 <= i < symbol.len() ==> is_sym_char(#[trigger] symbol[i])
        },
        AttrV::Array { elements } => attrsv_wf(elements),
        AttrV::Opaque { text } => {
            &&& text.len() >= 2
            &&& text[0] == '#'
            &&& forall|i: int| 1 <= i < text.len() ==> is_opaque_char(#[trigger] text[i])
        },
    }
}

pub open spec fn attrsv_wf(s: Seq<AttrV>) -> bool
    decreases s,
{
    if s.len() == 0 {
        true
    } else {
        attrv_wf(s[0]) && attrsv_wf(s.drop_first())
    }
}

// ---------------------------------------------------------------------------
// Canonical textual form
// ---------------------------------------------------------------------------

/// The canonical text of a signed integer.
pub open spec fn int_text(v: int) -> Seq<char> {
    if v < 0 {
        seq!['-'] + dec_seq((-v) as nat)
    } else {
        dec_seq(v as nat)
    }
}

/// The canonical textual form of an attribute value.
pub open spec fn attr_text(v: AttrV) -> Seq<char>
    decreases v, 1int,
{
    match v {
        AttrV::Unit => "unit"@,
        AttrV::Boolean { value } => if value { "true"@ } else { "false"@ },
        AttrV::Integer { value, ty } => int_text(value) + " : "@ + type_text(ty),
        AttrV::Float { bits, ty } => "0x"@ + hex_seq(bits, 16) + " : "@ + type_text(ty),
        AttrV::Str { value } => seq!['"'] + value + seq!['"'],
        AttrV::FlatSymbolRef { symbol } => seq!['@'] + symbol,
        AttrV::Array { elements } => seq!['['] + attrs_text(elements) + seq![']'],
        AttrV::Opaque { text } => text,
    }
}

/// The comma-separated texts of a sequence of attribute values.
pub open spec fn attrs_text(s: Seq<AttrV>) -> Seq<char>
    decreases s, 0int,
{
    if s.len() == 0 {
        Seq::empty()
    } else if s.len() == 1 {
        attr_text(s[0])
    } else {
        attr_text(s[0]) + ", "@ + attrs_text(s.drop_first())
    }
}

} // verus!

verus! {

/// A flat reference to a symbol, as a typed wrapper.
#[derive(Debug)]
pub struct FlatSymbolRefAttribute {
    /// The referenced symbol's name.
    pub symbol: String,
}

impl FlatSymbolRefAttribute {
    /// Creates a flat symbol reference attribute.
    ///
    /// The context parameter mirrors the rule that every factory takes
    /// its owning context.
    pub fn new(_context: &crate::context::Context, symbol: &str) -> (r: FlatSymbolRefAttribute)
        ensures
            r.symbol@ == symbol@,
    {
        FlatSymbolRefAttribute { symbol: symbol.to_owned() }
    }

    /// The referenced symbol's name.
    pub fn value(&self) -> (r: &str)
        ensures
            r@ == self.symbol@,
    {
        self.symbol.as_str()
    }

    /// The wrapper as a plain attribute.
    pub fn into_attribute(self) -> (r: Attribute)
        ensures
            r == (Attribute::FlatSymbolRef { symbol: self.symbol }),
    {
        Attribute::FlatSymbolRef { symbol: self.symbol }
    }
}

/// A float attribute, as a typed wrapper over its bit pattern.
#[derive(Debug)]
pub struct FloatAttribute {
    /// The IEEE bit pattern of the number.
    pub bits: u64,
    /// The float type of the number.
    pub ty: crate::ir::ty::Type,
}

impl FloatAttribute {
    /// Creates a float attribute from a bit pattern and a float type.
    pub fn from_bits(_context: &crate::context::Context, bits: u64, ty: crate::ir::ty::Type)
        -> (r: FloatAttribute)
        requires
            crate::ir::ty::type_is_float(ty),
        ensures
            r.bits == bits,
            r.ty == ty,
    {
        FloatAttribute { bits, ty }
    }

    /// The wrapper as a plain attribute.
    pub fn into_attribute(self) -> (r: Attribute)
        ensures
            r == (Attribute::Float { bits: self.bits, ty: self.ty }),
    {
        Attribute::Float { bits: self.bits, ty: self.ty }
    }

    /// Coerces an attribute into a float attribute, or reports the
    /// kind that was found instead.
    pub fn try_from(attribute: Attribute) -> (r: Result<FloatAttribute, crate::error::Error>)
        ensures
            match r {
                Ok(f) => attribute == (Attribute::Float { bits: f.bits, ty: f.ty }),
                Err(e) => {
                    &&& !(attribute is Float)
                    &&& e matches crate::error::Error::AttributeExpected(kind, got)
                        && kind@ == "float"@ && got@ == attr_text(attribute@)
                },
            },
    {
        match attribute {
            Attribute::Float { bits, ty } => Ok(FloatAttribute { bits, ty }),
            other => Err(crate::error::Error::AttributeExpected("float", other.to_text())),
        }
    }
}

/// An attribute wrapper with its own identity: two of them compare
/// equal only when they were created as the same one.
#[derive(Debug)]
pub struct DisctinctAttribute {
    /// The wrapper's identity, drawn from the context.
    pub id: u64,
    /// The referenced attribute.
    pub attribute: Attribute,
}

impl DisctinctAttribute {
    /// Creates a distinct attribute referencing the given attribute;
    /// a fresh identity is drawn from the context.
    pub fn new(context: &mut crate::context::Context, referenced: &Attribute)
        -> (r: DisctinctAttribute)
        requires
            crate::context::context_wf(*old(context)),
            crate::context::can_allocate(*old(context), 1),
        ensures
            crate::context::context_wf(*final(context)),
            r.id == old(context).next_id,
            r.attribute@ == referenced@,
            final(context).next_id == old(context).next_id + 1,
            final(context).allocated_operations == old(context).allocated_operations,
    {
        let id = context.next_id;
        context.next_id = context.next_id + 1;
        DisctinctAttribute { id, attribute: referenced.clone() }
    }

    /// The referenced attribute.
    pub fn attribute(&self) -> (r: &Attribute)
        ensures
            r == &self.attribute,
    {
        &self.attribute
    }
}

} // verus!
