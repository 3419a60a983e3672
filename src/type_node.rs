use vstd::prelude::*;

verus! {

/// The syntactic category of a node in a type expression.
///
/// Each node also carries text (the identifier, keyword, operator or literal it
/// names, as written), modifier flags and its child nodes in source order. A slot
/// of a construct that is left out in the source (a missing annotation, a missing
/// constraint) is held by an `Empty` child, so that the children stay positional.
#[derive(PartialEq, Eq, Structural, Clone, Copy, Debug)]
pub enum TypeKind {
    /// A keyword type; the text is the keyword (`string`, `number`, `never`, ...).
    Keyword,
    /// `this`.
    This,
    /// A named reference; text is the (possibly dotted) name, children are the type arguments.
    Reference,
    /// `typeof name<args>`; text is the queried name, children are the type arguments.
    Query,
    /// `import("arg").Qualifier<args>`; text is the argument and qualifier, children the arguments.
    Import,
    /// A literal type; text is the literal as written.
    Literal,
    /// An object type literal; children are its members.
    Object,
    /// A union; children are its arms.
    Union,
    /// An intersection; children are its arms.
    Intersection,
    /// `T[]`; the child is the element type.
    Array,
    /// A tuple; children are its elements.
    Tuple,
    /// A labelled tuple element; text is the label, the child is its type.
    TupleElement,
    /// `T?` inside a tuple.
    Optional,
    /// `...T` inside a tuple.
    Rest,
    /// A function type: type parameters, parameters, then the result type.
    Function,
    /// A constructor type: type parameters, parameters, then the result type.
    Constructor,
    /// `C extends E ? T : F`; children are the four types in that order.
    Conditional,
    /// `O[I]`; children are the object and the index type.
    IndexedAccess,
    /// `{ [K in C as N]: T }`; text is K, children are C, N and T, then two
    /// childless `List` nodes whose flags hold the `readonly` and `?` modifiers.
    Mapped,
    /// `keyof T`, `readonly T`, `unique T`; text is the operator.
    Operator,
    /// `(T)`.
    Parenthesized,
    /// `infer N extends C`; text is N, the child is C.
    Infer,
    /// `x is T` / `asserts x is T`; text is the parameter, the child is T.
    Predicate,
    /// A type parameter; text is its name, children are constraint and default.
    TypeParameter,
    /// A list of type parameters or of parameters.
    List,
    /// A parameter; text is its name, the child is its annotation.
    Parameter,
    /// A property signature; text is the key, the child is its annotation.
    Property,
    /// A method signature; text is the key, children as for `Function`.
    Method,
    /// An index signature; children are the parameter and the annotation.
    IndexSignature,
    /// A call signature; children as for `Function`.
    CallSignature,
    /// A construct signature; children as for `Function`.
    ConstructSignature,
    /// A getter signature; text is the key, the child is the annotation.
    Getter,
    /// A setter signature; text is the key, the child is the parameter.
    Setter,
    /// A slot left out in the source.
    Empty,
}

/// Modifier flags of a node.
pub const FLAG_OPTIONAL: u8 = 1;
pub const FLAG_READONLY: u8 = 2;
pub const FLAG_REST: u8 = 4;
pub const FLAG_ASSERTS: u8 = 8;
pub const FLAG_ABSTRACT: u8 = 16;
pub const FLAG_COMPUTED: u8 = 32;
pub const FLAG_MINUS: u8 = 64;
pub const FLAG_PLUS: u8 = 128;

/// One node of a type expression, with its children in source order.
pub struct TypeNode {
    pub kind: TypeKind,
    pub flags: u8,
    pub text: String,
    pub children: Vec<TypeNode>,
}

/// The mathematical shape of a type expression: what it is as written, without
/// any source location.
pub struct Shape {
    pub kind: TypeKind,
    pub flags: u8,
    pub text: Seq<char>,
    pub children: Seq<Shape>,
}

pub open spec fn shape_of(n: TypeNode) -> Shape
    decreases n,
{
    Shape { kind: n.kind, flags: n.flags, text: n.text@, children: shapes_of(n.children@) }
}

pub open spec fn shapes_of(s: Seq<TypeNode>) -> Seq<Shape>
    decreases s,
{
    if s.len() == 0 {
        Seq::empty()
    } else {
        shapes_of(s.subrange(0, s.len() - 1)).push(shape_of(s[s.len() - 1]))
    }
}

impl View for TypeNode {
    type V = Shape;

    open spec fn view(&self) -> Shape {
        shape_of(*self)
    }
}

} // verus!
