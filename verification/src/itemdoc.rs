//! Structured documentation for a single item, resolved from a parsed
//! interface-description document by name.

use crate::docmodel::{DocInner, DocRecord, Document, ItemKind};
use crate::errors::Error;
use vstd::prelude::*;
use vstd::string::StringExecFns;

verus! {

/// Documentation for one function argument.
pub struct ArgDoc {
    /// The argument's name.
    pub name: String,
    /// The argument's type, rendered as text.
    pub type_text: String,
    /// The argument's documentation, when present.
    pub docs: Option<String>,
}

/// Documentation for one method.
pub struct MethodDoc {
    /// The method's name.
    pub name: String,
    /// The method's documentation, when present.
    pub docs: Option<String>,
    /// The method's arguments.
    pub args: Vec<ArgDoc>,
    /// The return type, rendered as text.
    pub return_type: String,
}

/// Documentation for one field.
pub struct FieldDoc {
    /// The field's name.
    pub name: String,
    /// The field's type, rendered as text.
    pub type_text: String,
    /// The field's documentation, when present.
    pub docs: Option<String>,
}

/// Documentation for one enum variant.
pub struct VariantDoc {
    /// The variant's name.
    pub name: String,
    /// The variant's documentation, when present.
    pub docs: Option<String>,
    /// The variant's fields.
    pub fields: Vec<FieldDoc>,
}

/// Structured documentation for one item.
pub struct ItemDoc {
    /// The item's name.
    pub name: String,
    /// The item's kind.
    pub kind: ItemKind,
    /// The item's documentation, when present.
    pub docs: Option<String>,
    /// Traits the item implements.
    pub implemented_traits: Vec<String>,
    /// The item's methods.
    pub methods: Vec<MethodDoc>,
    /// The item's fields.
    pub fields: Vec<FieldDoc>,
    /// The item's variants.
    pub variants: Vec<VariantDoc>,
}

/// The first record whose name is exactly `nm`, scanning in index order.
pub open spec fn find_named(index: Seq<DocRecord>, nm: Seq<char>) -> Option<DocRecord>
    decreases index.len(),
{
    if index.len() == 0 {
        None
    } else if index[0].name matches Some(n) && n@ == nm {
        Some(index[0])
    } else {
        find_named(index.drop_first(), nm)
    }
}

/// The kind an item record's payload presents to callers, when the
/// payload is one that item documentation covers.
pub open spec fn doc_kind(inner: DocInner) -> Option<ItemKind> {
    match inner {
        DocInner::Module => Some(ItemKind::Module),
        DocInner::Struct { .. } => Some(ItemKind::Struct),
        DocInner::Enum { .. } => Some(ItemKind::Enum),
        DocInner::Function => Some(ItemKind::Function),
        DocInner::Trait => Some(ItemKind::Trait),
        DocInner::TypeAlias => Some(ItemKind::TypeAlias),
        DocInner::Constant => Some(ItemKind::Constant),
        _ => None,
    }
}

/// Maps a record's payload to the kind its documentation reports.
fn doc_kind_exec(inner: &DocInner) -> (r: Option<ItemKind>)
    ensures
        r == doc_kind(*inner),
{
    match inner {
        DocInner::Module => Some(ItemKind::Module),
        DocInner::Struct { .. } => Some(ItemKind::Struct),
        DocInner::Enum { .. } => Some(ItemKind::Enum),
        DocInner::Function => Some(ItemKind::Function),
        DocInner::Trait => Some(ItemKind::Trait),
        DocInner::TypeAlias => Some(ItemKind::TypeAlias),
        DocInner::Constant => Some(ItemKind::Constant),
        _ => None,
    }
}

/// Resolves an item by its unqualified name in the document's index and
/// returns its structured documentation.
///
/// Fails with `CrateNotFound` when no record carries the name, and with
/// `ParseError` when the first record carrying it has a kind that item
/// documentation does not cover.
pub fn resolve_item(doc: &Document, path: &str) -> (r: Result<ItemDoc, Error>)
    ensures
        match r {
            Ok(d) => {
                &&& find_named(doc.index@, path@) matches Some(rec)
                &&& doc_kind(find_named(doc.index@, path@)->Some_0.inner) is Some
                &&& ({
                    let rec = find_named(doc.index@, path@)->Some_0;
                    &&& d.name@ == path@
                    &&& Some(d.kind) == doc_kind(rec.inner)
                    &&& crate::docmodel::opt_string_view(d.docs) == crate::docmodel::opt_string_view(rec.docs)
                    &&& d.implemented_traits@.len() == 0
                    &&& d.methods@.len() == 0
                    &&& d.fields@.len() == 0
                    &&& d.variants@.len() == 0
                })
            },
            Err(e) => match find_named(doc.index@, path@) {
                Some(rec) => doc_kind(rec.inner) is None && e is ParseError && e.message_view()
                    == "unsupported item kind: "@ + path@,
                None => e is CrateNotFound && e.message_view() == "item not found: "@ + path@,
            },
        },
{
    let rec = match find_named_exec(&doc.index, path) {
        Some(rec) => rec,
        None => {
            return Err(
                Error::CrateNotFound(String::from_str("item not found: ").concat(path)),
            );
        },
    };
    match doc_kind_exec(&rec.inner) {
        Some(kind) => Ok(
            ItemDoc {
                name: path.to_owned(),
                kind,
                docs: crate::graph::clone_opt_string(&rec.docs),
                implemented_traits: Vec::new(),
                methods: Vec::new(),
                fields: Vec::new(),
                variants: Vec::new(),
            },
        ),
        None => Err(
            Error::ParseError(String::from_str("unsupported item kind: ").concat(path)),
        ),
    }
}

/// Looks up the first record whose name is exactly `nm`.
fn find_named_exec<'a>(index: &'a Vec<DocRecord>, nm: &str) -> (r: Option<&'a DocRecord>)
    ensures
        match r {
            Some(rec) => find_named(index@, nm@) == Some(*rec),
            None => find_named(index@, nm@) is None,
        },
{
    let mut i: usize = 0;
    proof {
        assert(index@.skip(0) =~= index@);
    }
    while i < index.len()
        invariant
            i <= index@.len(),
            find_named(index@, nm@) == find_named(index@.skip(i as int), nm@),
        decreases index@.len() - i,
    {
        proof {
            assert(index@.skip(i as int).drop_first() =~= index@.skip(i + 1 as int));
            assert(index@.skip(i as int)[0] == index@[i as int]);
        }
        let matched = match &index[i].name {
            Some(n) => crate::strutil::str_eq(n.as_str(), nm),
            None => false,
        };
        if matched {
            return Some(&index[i]);
        }
        i = i + 1;
    }
    proof {
        assert(index@.skip(index@.len() as int).len() == 0);
    }
    None
}

} // verus!
