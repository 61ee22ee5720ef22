//! What deriving `Shend` for a type produces: the bounds of the impl.
//!
//! A type may derive `Shend` when every type it contains is `Shend`, so the
//! derived impl keeps the type's own `where` predicates and adds the bound
//! `T: Shend` for the type `T` of every field. Unions are refused: their
//! impl must be written by hand. The parsing of the type and the writing of
//! the impl are left to the procedural-macro shell; this module decides
//! what the impl says.
use vstd::prelude::*;

verus! {

/// The shape of a type that `Shend` is derived for, as the derive reads
/// it: the predicates of its `where` clause, and the types of its fields,
/// each as source text.
pub enum DeriveShape {
    /// A struct; its fields in order (none for a unit struct).
    Struct { where_predicates: Vec<String>, fields: Vec<String> },
    /// An enum; the fields of each variant, variant by variant.
    Enum { where_predicates: Vec<String>, variants: Vec<Vec<String>> },
    /// A union.
    Union,
}

/// `Shend` must be manually implemented for unions.
#[derive(Debug, Clone, Copy, PartialEq, Eq)]
pub struct UnionError;

/// The bounds of a derived `Shend` impl: the type's own `where`
/// predicates, then `T: Shend` for each type `T` of `bounded_types`.
pub struct ShendBounds {
    /// The predicates of the type's own `where` clause.
    pub where_predicates: Vec<String>,
    /// The field types that must be `Shend`, in field order.
    pub bounded_types: Vec<String>,
}

/// The texts of `v`.
pub open spec fn texts(v: Seq<String>) -> Seq<Seq<char>> {
    Seq::new(v.len(), |i: int| v[i]@)
}

/// The texts of the field types of `variants`, variant by variant.
pub open spec fn variant_texts(variants: Seq<Vec<String>>) -> Seq<Seq<char>>
    decreases variants.len(),
{
    if variants.len() == 0 {
        Seq::empty()
    } else {
        variant_texts(variants.drop_last()) + texts(variants.last()@)
    }
}

/// The texts of the predicates of the type's own `where` clause.
pub open spec fn own_predicates(shape: DeriveShape) -> Seq<Seq<char>> {
    match shape {
        DeriveShape::Struct { where_predicates, .. } => texts(where_predicates@),
        DeriveShape::Enum { where_predicates, .. } => texts(where_predicates@),
        DeriveShape::Union => Seq::empty(),
    }
}

/// The texts of the types of all fields, in field order.
pub open spec fn field_types(shape: DeriveShape) -> Seq<Seq<char>> {
    match shape {
        DeriveShape::Struct { fields, .. } => texts(fields@),
        DeriveShape::Enum { variants, .. } => variant_texts(variants@),
        DeriveShape::Union => Seq::empty(),
    }
}

/// Appends copies of the strings of `src` to `out`.
fn extend_cloned(out: &mut Vec<String>, src: &Vec<String>)
    ensures
        texts(final(out)@) == texts(old(out)@) + texts(src@),
{
    let ghost start = out@;
    let mut i: usize = 0;
    while i < src.len()
        invariant
            i <= src@.len(),
            texts(out@) == texts(start) + texts(src@.subrange(0, i as int)),
        decreases src@.len() - i,
    {
        let s = src[i].clone();
        let ghost before = out@;
        out.push(s);
        proof {
            assert(texts(out@) =~= texts(before) + seq![src@[i as int]@]);
            assert(texts(src@.subrange(0, i + 1)) =~= texts(src@.subrange(0, i as int)) + seq![
                src@[i as int]@,
            ]);
            assert(texts(out@) =~= texts(start) + texts(src@.subrange(0, i + 1)));
        }
        i = i + 1;
    }
    assert(src@.subrange(0, src@.len() as int) =~= src@);
}

/// The bounds of the `Shend` impl derived for a type of this shape: its
/// own `where` predicates and every field type, or `UnionError` for a
/// union.
pub fn shend_bounds(shape: &DeriveShape) -> (r: Result<ShendBounds, UnionError>)
    ensures
        (*shape is Union) <==> r is Err,
        r matches Ok(b) ==> texts(b.where_predicates@) == own_predicates(*shape) && texts(
            b.bounded_types@,
        ) == field_types(*shape),
{
    match shape {
        DeriveShape::Union => Err(UnionError),
        DeriveShape::Struct { where_predicates, fields } => {
            let mut preds: Vec<String> = Vec::new();
            extend_cloned(&mut preds, where_predicates);
            let mut types: Vec<String> = Vec::new();
            extend_cloned(&mut types, fields);
            assert(texts(Seq::<String>::empty()) =~= Seq::<Seq<char>>::empty());
            assert(texts(preds@) =~= texts(where_predicates@));
            assert(texts(types@) =~= texts(fields@));
            Ok(ShendBounds { where_predicates: preds, bounded_types: types })
        },
        DeriveShape::Enum { where_predicates, variants } => {
            let mut preds: Vec<String> = Vec::new();
            extend_cloned(&mut preds, where_predicates);
            assert(texts(Seq::<String>::empty()) =~= Seq::<Seq<char>>::empty());
            assert(texts(preds@) =~= texts(where_predicates@));
            let mut types: Vec<String> = Vec::new();
            let mut v: usize = 0;
            while v < variants.len()
                invariant
                    v <= variants@.len(),
                    texts(types@) == variant_texts(variants@.subrange(0, v as int)),
                decreases variants@.len() - v,
            {
                extend_cloned(&mut types, &variants[v]);
                proof {
                    let next = variants@.subrange(0, v + 1);
                    assert(next.drop_last() =~= variants@.subrange(0, v as int));
                    assert(next.last() == variants@[v as int]);
                }
                v = v + 1;
            }
            assert(variants@.subrange(0, variants@.len() as int) =~= variants@);
            Ok(ShendBounds { where_predicates: preds, bounded_types: types })
        },
    }
}

} // verus!
