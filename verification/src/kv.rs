//! The plainest derive: every named field takes the values of the key that is
//! its own name.

use vstd::prelude::*;
use crate::attr::{ArmModel, Field};
use crate::derive::{arm_views, Arm, Data, DeriveInput, Fields, GuzzleImpl};

verus! {

/// The type and the name of a field that has a name.
pub fn field_to_type_and_ident(field: &Field) -> (found: Option<(&String, &String)>)
    ensures
        match found {
            Some((ty, ident)) => field.ident == Some(*ident) && *ty == field.ty,
            None => field.ident is None,
        },
{
    match &field.ident {
        Some(ident) => Some((&field.ty, ident)),
        None => None,
    }
}

/// The key table in which every field that has a name is keyed by that name,
/// in the order of the fields.
pub open spec fn name_table(fields: Seq<Field>) -> Seq<ArmModel>
    decreases fields.len(),
{
    if fields.len() == 0 {
        Seq::empty()
    } else {
        let front = name_table(fields.drop_last());
        match fields.last().ident {
            Some(ident) => front.push(ArmModel { field: ident@, matcher: ident@, parser: None }),
            None => front,
        }
    }
}

/// The dispatch tables of a struct with named fields: no nested records, and
/// each field keyed by its own name.
pub fn impl_kv_predicates(ast: &DeriveInput) -> (found: GuzzleImpl)
    requires
        ast.data matches Data::Struct(Fields::Named(_)),
    ensures
        found.name == ast.ident,
        found.deep_guzzles@.len() == 0,
        ast.data matches Data::Struct(Fields::Named(fields)) && arm_views(found.arms@)
            == name_table(fields.named@),
{
    let mut arms: Vec<Arm> = Vec::new();
    match &ast.data {
        Data::Struct(Fields::Named(fields)) => {
            let mut i: usize = 0;
            proof {
                assert(arm_views(arms@) =~= name_table(fields.named@.take(0)));
            }
            while i < fields.named.len()
                invariant
                    i <= fields.named.len(),
                    arm_views(arms@) == name_table(fields.named@.take(i as int)),
                decreases fields.named.len() - i,
            {
                let ghost before = arms@;
                proof {
                    assert(fields.named@.take(i + 1).drop_last() =~= fields.named@.take(i as int));
                }
                match field_to_type_and_ident(&fields.named[i]) {
                    Some((_, ident)) => {
                        arms.push(Arm { key: ident.clone(), matcher: ident.clone(), parser: None });
                        proof {
                            assert(arm_views(arms@) =~= arm_views(before).push(
                                ArmModel { field: ident@, matcher: ident@, parser: None },
                            ));
                        }
                    },
                    None => {},
                }
                i += 1;
            }
            proof {
                assert(fields.named@.take(i as int) =~= fields.named@);
            }
        },
        _ => {},
    }
    GuzzleImpl { name: ast.ident.clone(), deep_guzzles: Vec::new(), arms }
}

} // verus!
