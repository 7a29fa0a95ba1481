//! The interface-description document, as the index builder consumes it:
//! a flat table of item records, a path table, and the external-package
//! table, all keyed by opaque numeric ids.

use vstd::prelude::*;

verus! {

/// The kind of a documented item, as the path table reports it.
#[derive(Clone, Copy, PartialEq, Eq, Structural, Debug)]
pub enum ItemKind {
    Module,
    ExternCrate,
    Use,
    Struct,
    StructField,
    Union,
    Enum,
    Variant,
    Function,
    TypeAlias,
    Constant,
    Trait,
    TraitAlias,
    Impl,
    Static,
    ExternType,
    Macro,
    ProcAttribute,
    ProcDerive,
    AssocConst,
    AssocType,
    Primitive,
    Keyword,
    Attribute,
}

/// The kind-specific payload of an item record: what the builder reads of
/// it. Payloads the builder does not consume are `Other`.
pub enum DocInner {
    /// A module.
    Module,
    /// A struct, with the ids of its implementation blocks.
    Struct { impls: Vec<u32> },
    /// An enum, with the ids of its variants and implementation blocks.
    Enum { variants: Vec<u32>, impls: Vec<u32> },
    /// An implementation block: its trait's fully qualified name when it
    /// implements one, and the ids of its member items.
    Impl { trait_path: Option<String>, members: Vec<u32> },
    /// A free function or an implementation-block method.
    Function,
    /// A trait declaration.
    Trait,
    /// A type alias.
    TypeAlias,
    /// A constant.
    Constant,
    /// Any other payload.
    Other,
}

/// One record of the document's item index.
pub struct DocRecord {
    /// The record's id, unique within the document.
    pub id: u32,
    /// The package the item belongs to; `0` is the documented package
    /// itself.
    pub crate_id: u32,
    /// The item's unqualified name, when it has one.
    pub name: Option<String>,
    /// The item's documentation string, when present.
    pub docs: Option<String>,
    /// The kind-specific payload.
    pub inner: DocInner,
}

/// One entry of the document's path table.
pub struct DocSummary {
    /// The id of the item the entry describes.
    pub id: u32,
    /// The fully qualified path, one component per element.
    pub path: Vec<String>,
    /// The item's kind.
    pub kind: ItemKind,
}

/// One entry of the document's external-package table.
pub struct ExternalPackage {
    /// The package's id within the document.
    pub id: u32,
    /// The package's name.
    pub name: String,
}

/// A parsed interface-description document.
pub struct Document {
    /// The format version the document declares.
    pub format_version: u32,
    /// The id of the document's root item.
    pub root: u32,
    /// The item index.
    pub index: Vec<DocRecord>,
    /// The path table.
    pub paths: Vec<DocSummary>,
    /// The external-package table.
    pub external_packages: Vec<ExternalPackage>,
}

/// The characters of an optional documentation string.
pub open spec fn opt_string_view(s: Option<String>) -> Option<Seq<char>> {
    match s {
        Some(d) => Some(d@),
        None => None,
    }
}

/// The first record carrying the id, scanning the index in order.
pub open spec fn find_record(index: Seq<DocRecord>, id: u32) -> Option<DocRecord>
    decreases index.len(),
{
    if index.len() == 0 {
        None
    } else if index[0].id == id {
        Some(index[0])
    } else {
        find_record(index.drop_first(), id)
    }
}

/// The id of the first external package carrying the name.
pub open spec fn find_external(ex: Seq<ExternalPackage>, name: Seq<char>) -> Option<u32>
    decreases ex.len(),
{
    if ex.len() == 0 {
        None
    } else if ex[0].name@ == name {
        Some(ex[0].id)
    } else {
        find_external(ex.drop_first(), name)
    }
}

/// Looks up the first record carrying the id.
pub fn lookup_record<'a>(index: &'a Vec<DocRecord>, id: u32) -> (r: Option<&'a DocRecord>)
    ensures
        match r {
            Some(rec) => find_record(index@, id) == Some(*rec),
            None => find_record(index@, id) is None,
        },
{
    let mut i: usize = 0;
    proof {
        assert(index@.skip(0) =~= index@);
    }
    while i < index.len()
        invariant
            i <= index@.len(),
            find_record(index@, id) == find_record(index@.skip(i as int), id),
        decreases index@.len() - i,
    {
        proof {
            assert(index@.skip(i as int).drop_first() =~= index@.skip(i + 1 as int));
            assert(index@.skip(i as int)[0] == index@[i as int]);
        }
        if index[i].id == id {
            return Some(&index[i]);
        }
        i = i + 1;
    }
    proof {
        assert(index@.skip(index@.len() as int).len() == 0);
    }
    None
}

/// Looks up the id of the first external package carrying the name.
pub fn lookup_external(ex: &Vec<ExternalPackage>, name: &str) -> (r: Option<u32>)
    ensures
        r == find_external(ex@, name@),
{
    let mut i: usize = 0;
    proof {
        assert(ex@.skip(0) =~= ex@);
    }
    while i < ex.len()
        invariant
            i <= ex@.len(),
            find_external(ex@, name@) == find_external(ex@.skip(i as int), name@),
        decreases ex@.len() - i,
    {
        proof {
            assert(ex@.skip(i as int).drop_first() =~= ex@.skip(i + 1 as int));
            assert(ex@.skip(i as int)[0] == ex@[i as int]);
        }
        if crate::strutil::str_eq(ex[i].name.as_str(), name) {
            return Some(ex[i].id);
        }
        i = i + 1;
    }
    proof {
        assert(ex@.skip(ex@.len() as int).len() == 0);
    }
    None
}

} // verus!
