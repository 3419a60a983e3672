use vstd::prelude::*;
use crate::fingerprint::{Token, encode, fingerprint, lemma_fingerprint_equal_iff_same_shape};
use crate::type_node::TypeNode;

verus! {

/// A top-level type alias as the parser delivered it.
pub struct TypeAliasDecl {
    /// The declared identifier.
    pub name: String,
    /// Whether the alias stands under `export`.
    pub exported: bool,
    /// Whether the alias carries `declare`.
    pub declare: bool,
    /// The 0-based line of the declaration's start, where the source map knew it.
    pub line_index: Option<usize>,
    /// The aliased type expression.
    pub type_ann: TypeNode,
}

/// One top-level item of a parsed module.
pub enum ModuleItem {
    TypeAlias(TypeAliasDecl),
    Other,
}

/// A parsed module: its top-level items in source order.
pub struct SourceModule {
    pub body: Vec<ModuleItem>,
}

/// One declaration of a type alias, with where it stands and its fingerprint.
#[derive(Debug, Clone)]
pub struct FoundType {
    pub name: String,
    pub filename: String,
    pub line: usize,
    pub is_exported: bool,
    pub body: Vec<Token>,
}

/// The 1-based line of a declaration, or 0 where it is not known.
pub open spec fn line_number(line_index: Option<usize>) -> usize {
    match line_index {
        Some(i) => if i < usize::MAX {
            (i + 1) as usize
        } else {
            0
        },
        None => 0,
    }
}

/// `r` is the record of declaration `d` in the file named `filename`.
pub open spec fn describes(r: FoundType, d: TypeAliasDecl, filename: Seq<char>) -> bool {
    &&& r.name@ == d.name@
    &&& r.filename@ == filename
    &&& r.line == line_number(d.line_index)
    &&& r.is_exported == (d.exported || d.declare)
    &&& r.body@ == encode(d.type_ann@)
}

/// The type aliases among a module's top-level items, in source order.
pub open spec fn aliases(items: Seq<ModuleItem>) -> Seq<TypeAliasDecl>
    decreases items.len(),
{
    if items.len() == 0 {
        Seq::empty()
    } else {
        let rest = aliases(items.subrange(0, items.len() - 1));
        match items[items.len() - 1] {
            ModuleItem::TypeAlias(d) => rest.push(d),
            ModuleItem::Other => rest,
        }
    }
}

impl FoundType {
    /// The record of one type-alias declaration of the file named `filename`.
    pub fn from_ast(type_alias: &TypeAliasDecl, filename: &str) -> (r: Self)
        ensures
            describes(r, *type_alias, filename@),
    {
        let line: usize = match type_alias.line_index {
            Some(i) => if i < usize::MAX {
                i + 1
            } else {
                0
            },
            None => 0,
        };
        FoundType {
            name: type_alias.name.clone(),
            filename: String::from_str(filename),
            line,
            is_exported: type_alias.exported || type_alias.declare,
            body: fingerprint(&type_alias.type_ann),
        }
    }
}

/// Two declarations, from the same file or from two different ones, get equal
/// fingerprints exactly when their aliased types are written alike: neither the
/// file, the line, the name nor the modifiers take part.
pub proof fn lemma_records_compare_by_shape(
    r1: FoundType,
    d1: TypeAliasDecl,
    f1: Seq<char>,
    r2: FoundType,
    d2: TypeAliasDecl,
    f2: Seq<char>,
)
    requires
        describes(r1, d1, f1),
        describes(r2, d2, f2),
    ensures
        r1.body@ == r2.body@ <==> d1.type_ann@ == d2.type_ann@,
{
    lemma_fingerprint_equal_iff_same_shape(d1.type_ann@, d2.type_ann@);
}

/// Appends to `list` the record of each top-level type alias of `module`, in
/// source order.
pub fn extract_types(module: &SourceModule, filename: &str, list: &mut Vec<FoundType>)
    ensures
        final(list)@.len() == old(list)@.len() + aliases(module.body@).len(),
        forall|i: int| 0 <= i < old(list)@.len() ==> #[trigger] final(list)@[i] == old(list)@[i],
        forall|k: int|
            0 <= k < aliases(module.body@).len() ==> describes(
                #[trigger] final(list)@[old(list)@.len() + k],
                aliases(module.body@)[k],
                filename@,
            ),
{
    let ghost start = list@;
    let mut i: usize = 0;
    while i < module.body.len()
        invariant
            i <= module.body@.len(),
            list@.len() == start.len() + aliases(module.body@.subrange(0, i as int)).len(),
            forall|j: int| 0 <= j < start.len() ==> #[trigger] list@[j] == start[j],
            forall|k: int|
                0 <= k < aliases(module.body@.subrange(0, i as int)).len() ==> describes(
                    #[trigger] list@[start.len() + k],
                    aliases(module.body@.subrange(0, i as int))[k],
                    filename@,
                ),
        decreases module.body@.len() - i,
    {
        proof {
            let cur = module.body@.subrange(0, i + 1);
            assert(cur.subrange(0, i as int) =~= module.body@.subrange(0, i as int));
        }
        match &module.body[i] {
            ModuleItem::TypeAlias(d) => {
                let r = FoundType::from_ast(d, filename);
                list.push(r);
            },
            ModuleItem::Other => {},
        }
        i = i + 1;
    }
    assert(module.body@.subrange(0, module.body@.len() as int) =~= module.body@);
}

} // verus!
