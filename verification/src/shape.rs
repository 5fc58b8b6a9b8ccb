//! The shapes a target type can announce, and the values the codec moves.
//!
//! The visitor protocol of the original framework is consumed here as data:
//! a target announces its shape (scalar kind, optional, enumeration with a
//! variant table), and the decoder produces a tagged value for it. Shapes
//! the wire format cannot express are present so that asking for them can be
//! rejected with a descriptive failure rather than coerced.

use vstd::prelude::*;

verus! {

/// How an enumeration variant carries data. Only `Unit` is representable on
/// the wire.
#[derive(Debug, Clone, Copy, PartialEq, Eq, Structural)]
pub enum VariantKind {
    Unit,
    Newtype,
    Tuple,
    Struct,
}

/// One variant of an enumeration: its wire name and payload kind.
#[derive(Debug, PartialEq, Eq)]
pub struct VariantShape {
    pub name: Vec<u8>,
    pub kind: VariantKind,
}

impl View for VariantShape {
    type V = (Seq<u8>, VariantKind);

    open spec fn view(&self) -> (Seq<u8>, VariantKind) {
        (self.name@, self.kind)
    }
}

/// The shape of a value target, as the protocol reports it.
#[derive(Debug, PartialEq, Eq)]
pub enum Shape {
    Bool,
    SInt,
    UInt,
    Float,
    Text,
    Unit,
    Optional(Box<Shape>),
    Choice(Vec<VariantShape>),
    Chr,
    Bytes,
    List,
    Tuple,
    TupleStruct,
    Newtype,
}

/// The variant table as mathematics: each variant's name and payload kind.
pub open spec fn variants_model(vars: Seq<VariantShape>) -> Seq<(Seq<u8>, VariantKind)> {
    vars.map_values(|v: VariantShape| v@)
}

/// The mathematical mirror of [`Shape`].
pub ghost enum ShapeModel {
    Bool,
    SInt,
    UInt,
    Float,
    Text,
    Unit,
    Optional(Box<ShapeModel>),
    Choice(Seq<(Seq<u8>, VariantKind)>),
    Chr,
    Bytes,
    List,
    Tuple,
    TupleStruct,
    Newtype,
}

impl View for Shape {
    type V = ShapeModel;

    open spec fn view(&self) -> ShapeModel
        decreases self,
    {
        match self {
            Shape::Bool => ShapeModel::Bool,
            Shape::SInt => ShapeModel::SInt,
            Shape::UInt => ShapeModel::UInt,
            Shape::Float => ShapeModel::Float,
            Shape::Text => ShapeModel::Text,
            Shape::Unit => ShapeModel::Unit,
            Shape::Optional(inner) => ShapeModel::Optional(Box::new((**inner)@)),
            Shape::Choice(vs) => ShapeModel::Choice(variants_model(vs@)),
            Shape::Chr => ShapeModel::Chr,
            Shape::Bytes => ShapeModel::Bytes,
            Shape::List => ShapeModel::List,
            Shape::Tuple => ShapeModel::Tuple,
            Shape::TupleStruct => ShapeModel::TupleStruct,
            Shape::Newtype => ShapeModel::Newtype,
        }
    }
}

/// One field of a record target: its wire name and the shape of its value.
#[derive(Debug, PartialEq, Eq)]
pub struct FieldShape {
    pub name: Vec<u8>,
    pub shape: Shape,
}

impl View for FieldShape {
    type V = (Seq<u8>, ShapeModel);

    open spec fn view(&self) -> (Seq<u8>, ShapeModel) {
        (self.name@, self.shape@)
    }
}

/// A decoded or to-be-encoded value, tagged with the shape it came from.
/// The variants past `Variant` exist so that the writer can reject them: the
/// wire format cannot carry them.
#[derive(Debug, PartialEq, Eq)]
pub enum Value {
    Bool(bool),
    SInt(i64),
    UInt(u64),
    /// A floating-point value, held as its decimal text.
    Float(Vec<u8>),
    Text(Vec<u8>),
    Unit,
    /// An optional value that is not there.
    Absent,
    /// An optional value that is there.
    Present(Box<Value>),
    /// A unit enumeration variant, by name.
    Variant(Vec<u8>),
    Chr(char),
    Bytes(Vec<u8>),
    List,
    Tuple,
    TupleStruct,
    Newtype(Box<Value>),
    NewtypeVariant,
    TupleVariant,
    StructVariant,
}

/// The mathematical mirror of [`Value`].
pub ghost enum ValueModel {
    Bool(bool),
    SInt(i64),
    UInt(u64),
    Float(Seq<u8>),
    Text(Seq<u8>),
    Unit,
    Absent,
    Present(Box<ValueModel>),
    Variant(Seq<u8>),
    Chr(char),
    Bytes(Seq<u8>),
    List,
    Tuple,
    TupleStruct,
    Newtype(Box<ValueModel>),
    NewtypeVariant,
    TupleVariant,
    StructVariant,
}

impl View for Value {
    type V = ValueModel;

    open spec fn view(&self) -> ValueModel
        decreases self,
    {
        match self {
            Value::Bool(b) => ValueModel::Bool(*b),
            Value::SInt(i) => ValueModel::SInt(*i),
            Value::UInt(u) => ValueModel::UInt(*u),
            Value::Float(t) => ValueModel::Float(t@),
            Value::Text(t) => ValueModel::Text(t@),
            Value::Unit => ValueModel::Unit,
            Value::Absent => ValueModel::Absent,
            Value::Present(inner) => ValueModel::Present(Box::new((**inner)@)),
            Value::Variant(n) => ValueModel::Variant(n@),
            Value::Chr(c) => ValueModel::Chr(*c),
            Value::Bytes(b) => ValueModel::Bytes(b@),
            Value::List => ValueModel::List,
            Value::Tuple => ValueModel::Tuple,
            Value::TupleStruct => ValueModel::TupleStruct,
            Value::Newtype(inner) => ValueModel::Newtype(Box::new((**inner)@)),
            Value::NewtypeVariant => ValueModel::NewtypeVariant,
            Value::TupleVariant => ValueModel::TupleVariant,
            Value::StructVariant => ValueModel::StructVariant,
        }
    }
}

/// One key/value pair handed to the writer.
#[derive(Debug, PartialEq, Eq)]
pub struct Entry {
    pub key: Value,
    pub value: Value,
}

impl View for Entry {
    type V = (ValueModel, ValueModel);

    open spec fn view(&self) -> (ValueModel, ValueModel) {
        (self.key@, self.value@)
    }
}

} // verus!
