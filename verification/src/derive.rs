//! From a record's declaration to its dispatch tables: the list of the nested
//! records that are asked first, and the key table that is looked at after them.

use vstd::prelude::*;
use crate::attr::{
    classification, text_of, ArmModel, AttrError, ErrorModel, Field, FieldAttribute, FieldModel,
};

verus! {

/// The fields of a struct in braces.
#[derive(Debug, PartialEq, Eq)]
pub struct FieldsNamed {
    /// The fields in the order of their declaration.
    pub named: Vec<Field>,
}

/// The fields of a struct.
#[derive(Debug, PartialEq, Eq)]
pub enum Fields {
    /// `struct S { a: A, b: B }`
    Named(FieldsNamed),
    /// `struct S(A, B);`
    Unnamed(Vec<Field>),
    /// `struct S;`
    Unit,
}

/// What a declaration declares.
#[derive(Debug, PartialEq, Eq)]
pub enum Data {
    Struct(Fields),
    Enum,
    Union,
}

/// The declaration that a dispatch routine is derived for.
#[derive(Debug, PartialEq, Eq)]
pub struct DeriveInput {
    /// The name of the type.
    pub ident: String,
    pub data: Data,
}

/// An annotation that was refused, with the place of its field in the
/// declaration.
#[derive(Clone, Debug, PartialEq, Eq)]
pub struct FieldError {
    pub span: usize,
    pub error: AttrError,
}

/// [`FieldError`] with its error by its view.
pub struct FailureModel {
    pub span: int,
    pub error: ErrorModel,
}

impl View for FieldError {
    type V = FailureModel;

    open spec fn view(&self) -> FailureModel {
        FailureModel { span: self.span as int, error: self.error@ }
    }
}

/// A message for the user of the derive, at the place of a field.
#[derive(Clone, Debug, PartialEq, Eq)]
pub struct CompileError {
    pub span: usize,
    pub message: String,
}

/// One line of the key table: the key, the field that takes its value, and the
/// field's parser, as its source text.
#[derive(Clone, Debug, PartialEq, Eq)]
pub struct Arm {
    /// The field that takes the value.
    pub key: String,
    /// The key that a pair must have.
    pub matcher: String,
    /// The expression that converts the value; without one the value is
    /// assigned as it comes.
    pub parser: Option<String>,
}

impl View for Arm {
    type V = ArmModel;

    open spec fn view(&self) -> ArmModel {
        ArmModel { field: self.key@, matcher: self.matcher@, parser: text_of(self.parser) }
    }
}

/// The dispatch tables of a record.
#[derive(Clone, Debug, PartialEq, Eq)]
pub struct GuzzleImpl {
    /// The name of the record's type.
    pub name: String,
    /// The fields that hold a nested record, in the order of their declaration.
    pub deep_guzzles: Vec<String>,
    /// The key table: the lines of the keyed fields in the order of their
    /// declaration, those of one field in the order of its keys.
    pub arms: Vec<Arm>,
}

/// What a derive expands to: the dispatch tables, or the messages for the
/// annotations that were refused.
#[derive(Clone, Debug, PartialEq, Eq)]
pub enum Expansion {
    Impl(GuzzleImpl),
    Errors(Vec<CompileError>),
}

/// The classification of a named field.
pub open spec fn field_model(field: Field) -> Result<FieldModel, ErrorModel> {
    match classification(field.ident->0@, field.attrs@) {
        Ok(attributes) => Ok(FieldModel { field: field.ident->0@, attributes }),
        Err(error) => Err(error),
    }
}

/// The annotations that are refused among those of `fields`, each with the
/// place of its field, in the order of the fields.
pub open spec fn failures(fields: Seq<Field>) -> Seq<FailureModel>
    decreases fields.len(),
{
    if fields.len() == 0 {
        Seq::empty()
    } else {
        let front = failures(fields.drop_last());
        match field_model(fields.last()) {
            Err(error) => front.push(FailureModel { span: fields.len() - 1, error }),
            Ok(_) => front,
        }
    }
}

/// The classifications of `fields`, each at the place of its field.
pub open spec fn field_models(fields: Seq<Field>) -> Seq<FieldModel> {
    Seq::new(fields.len(), |i: int| field_model(fields[i])->Ok_0)
}

/// The recursion list: the names of the fields that hold a nested record, in the
/// order of their declaration.
pub open spec fn recursion_list(attributes: Seq<FieldModel>) -> Seq<Seq<char>>
    decreases attributes.len(),
{
    if attributes.len() == 0 {
        Seq::empty()
    } else {
        let front = recursion_list(attributes.drop_last());
        match attributes.last().recursion() {
            Some(name) => front.push(name),
            None => front,
        }
    }
}

/// The key table: the lines of the keyed fields in the order of their
/// declaration, those of one field in the order of its keys.
pub open spec fn key_table(attributes: Seq<FieldModel>) -> Seq<ArmModel>
    decreases attributes.len(),
{
    if attributes.len() == 0 {
        Seq::empty()
    } else {
        key_table(attributes.drop_last()) + attributes.last().arms()
    }
}

/// The fields' classifications by their views.
pub open spec fn attribute_views(attributes: Seq<FieldAttribute>) -> Seq<FieldModel> {
    attributes.map_values(|attribute: FieldAttribute| attribute@)
}

/// The refused annotations by their views.
pub open spec fn failure_views(errors: Seq<FieldError>) -> Seq<FailureModel> {
    errors.map_values(|error: FieldError| error@)
}

/// The lines of a key table by their views.
pub open spec fn arm_views(arms: Seq<Arm>) -> Seq<ArmModel> {
    arms.map_values(|arm: Arm| arm@)
}

/// Texts as sequences of characters.
pub open spec fn text_views(texts: Seq<String>) -> Seq<Seq<char>> {
    texts.map_values(|text: String| text@)
}

/// Classifies every field of a declaration. Where an annotation is refused the
/// others are still read, and all that are refused come back together.
pub fn fields_to_attributes(fields: &FieldsNamed) -> (result: Result<
    Vec<FieldAttribute>,
    Vec<FieldError>,
>)
    requires
        forall|i: int| 0 <= i < fields.named@.len() ==> fields.named@[i].ident is Some,
    ensures
        match result {
            Ok(attributes) => {
                &&& failures(fields.named@).len() == 0
                &&& attributes@.len() == fields.named@.len()
                &&& forall|i: int|
                    0 <= i < attributes@.len() ==> field_model(fields.named@[i]) == Ok::<
                        FieldModel,
                        ErrorModel,
                    >((#[trigger] attributes@[i])@)
                &&& forall|i: int|
                    0 <= i < attributes@.len() ==> (#[trigger] attributes@[i])@.names_itself()
                &&& attribute_views(attributes@) == field_models(fields.named@)
            },
            Err(errors) => errors@.len() > 0 && failure_views(errors@) == failures(fields.named@),
        },
{
    let mut oks: Vec<FieldAttribute> = Vec::new();
    let mut errs: Vec<FieldError> = Vec::new();
    let mut i: usize = 0;
    while i < fields.named.len()
        invariant
            i <= fields.named.len(),
            forall|j: int| 0 <= j < fields.named@.len() ==> fields.named@[j].ident is Some,
            failure_views(errs@) == failures(fields.named@.take(i as int)),
            errs@.len() == 0 ==> oks@.len() == i,
            errs@.len() == 0 ==> forall|j: int|
                0 <= j < i ==> field_model(fields.named@[j]) == Ok::<FieldModel, ErrorModel>(
                    (#[trigger] oks@[j])@,
                ),
            forall|j: int| 0 <= j < oks@.len() ==> (#[trigger] oks@[j])@.names_itself(),
        decreases fields.named.len() - i,
    {
        proof {
            assert(fields.named@.take(i + 1).drop_last() =~= fields.named@.take(i as int));
        }
        match FieldAttribute::from(&fields.named[i]) {
            Ok(attribute) => {
                oks.push(attribute);
            },
            Err(error) => {
                let ghost before = errs@;
                errs.push(FieldError { span: i, error });
                proof {
                    assert(failure_views(errs@) =~= failure_views(before).push(
                        errs@[before.len() as int]@,
                    ));
                }
            },
        }
        i += 1;
    }
    proof {
        assert(fields.named@.take(i as int) =~= fields.named@);
    }
    if errs.len() > 0 {
        Err(errs)
    } else {
        proof {
            assert(attribute_views(oks@) =~= field_models(fields.named@));
        }
        Ok(oks)
    }
}

/// Turns the refused annotations into messages, one for each: what the error
/// says, at the place of its field.
pub fn handle_errors(errors: &Vec<FieldError>) -> (output: Vec<CompileError>)
    ensures
        output@.len() == errors@.len(),
        forall|i: int|
            0 <= i < output@.len() ==> (#[trigger] output@[i]).span == errors@[i].span
                && output@[i].message@ == errors@[i].error@.message(),
{
    let mut output: Vec<CompileError> = Vec::new();
    let mut i: usize = 0;
    while i < errors.len()
        invariant
            i <= errors.len(),
            output@.len() == i,
            forall|j: int|
                0 <= j < i ==> (#[trigger] output@[j]).span == errors@[j].span
                    && output@[j].message@ == errors@[j].error@.message(),
        decreases errors.len() - i,
    {
        output.push(CompileError { span: errors[i].span, message: errors[i].error.message() });
        i += 1;
    }
    output
}

/// The dispatch tables of the classified fields of the type `name`.
pub fn tables(name: &String, attributes: &Vec<FieldAttribute>) -> (found: GuzzleImpl)
    requires
        forall|i: int| 0 <= i < attributes@.len() ==> (#[trigger] attributes@[i])@.names_itself(),
    ensures
        found.name == *name,
        text_views(found.deep_guzzles@) == recursion_list(attribute_views(attributes@)),
        arm_views(found.arms@) == key_table(attribute_views(attributes@)),
{
    let mut deep_guzzles: Vec<String> = Vec::new();
    let mut arms: Vec<Arm> = Vec::new();
    let mut i: usize = 0;
    while i < attributes.len()
        invariant
            i <= attributes.len(),
            text_views(deep_guzzles@) == recursion_list(
                attribute_views(attributes@).take(i as int),
            ),
            arm_views(arms@) == key_table(attribute_views(attributes@).take(i as int)),
        decreases attributes.len() - i,
    {
        let ghost views = attribute_views(attributes@);
        let ghost old_deep = deep_guzzles@;
        let ghost old_arms = arms@;
        proof {
            assert(views.take(i + 1).drop_last() =~= views.take(i as int));
            assert(views.take(i + 1).last() == attributes@[i as int]@);
        }
        let attribute = &attributes[i];
        match attribute.get_recursion() {
            Some(name) => {
                deep_guzzles.push(name.clone());
                proof {
                    assert(text_views(deep_guzzles@) =~= text_views(old_deep).push(name@));
                    assert(attribute@.arms() =~= Seq::<ArmModel>::empty());
                    assert(arm_views(arms@) =~= key_table(views.take(i + 1)));
                }
            },
            None => {
                let parts = attribute.get_arm_parts();
                let mut j: usize = 0;
                while j < parts.len()
                    invariant
                        j <= parts.len(),
                        parts@.len() == attribute@.arms().len(),
                        forall|k: int|
                            0 <= k < parts@.len() ==> {
                                &&& (#[trigger] parts@[k]).0@ == attribute@.arms()[k].field
                                &&& parts@[k].1@ == attribute@.arms()[k].matcher
                                &&& text_of(*parts@[k].2) == attribute@.arms()[k].parser
                            },
                        arm_views(arms@) == arm_views(old_arms) + attribute@.arms().take(j as int),
                    decreases parts.len() - j,
                {
                    let ghost before = arms@;
                    let (key, matcher, parser) = parts[j];
                    let parser = match parser {
                        Some(text) => Some(text.clone()),
                        None => None,
                    };
                    arms.push(Arm { key: key.clone(), matcher: matcher.clone(), parser });
                    proof {
                        assert(arm_views(arms@) =~= arm_views(before).push(
                            attribute@.arms()[j as int],
                        ));
                        assert(attribute@.arms().take(j + 1) =~= attribute@.arms().take(
                            j as int,
                        ).push(attribute@.arms()[j as int]));
                    }
                    j += 1;
                }
                proof {
                    assert(attribute@.arms().take(j as int) =~= attribute@.arms());
                    assert(text_views(deep_guzzles@) == recursion_list(views.take(i + 1)));
                }
            },
        }
        i += 1;
    }
    proof {
        assert(attribute_views(attributes@).take(i as int) =~= attribute_views(attributes@));
    }
    GuzzleImpl { name: name.clone(), deep_guzzles, arms }
}

/// What the derive expands to for the struct `name` with the fields `fields`:
/// its dispatch tables where every annotation is accepted, the messages for
/// those that are not where one is refused.
pub open spec fn expands_to(name: Seq<char>, fields: Seq<Field>, expansion: Expansion) -> bool {
    if failures(fields).len() == 0 {
        &&& expansion matches Expansion::Impl(found)
        &&& found.name@ == name
        &&& text_views(found.deep_guzzles@) == recursion_list(field_models(fields))
        &&& arm_views(found.arms@) == key_table(field_models(fields))
    } else {
        &&& expansion matches Expansion::Errors(output)
        &&& output@.len() == failures(fields).len()
        &&& forall|i: int|
            0 <= i < output@.len() ==> (#[trigger] output@[i]).span == failures(fields)[i].span
                && output@[i].message@ == failures(fields)[i].error.message()
    }
}

/// Expands the derive for a struct with named fields.
pub fn impl_guzzle_named_fields(ast: &DeriveInput, fields: &FieldsNamed) -> (expansion: Expansion)
    requires
        forall|i: int| 0 <= i < fields.named@.len() ==> fields.named@[i].ident is Some,
    ensures
        expands_to(ast.ident@, fields.named@, expansion),
{
    match fields_to_attributes(fields) {
        Err(errors) => {
            let output = handle_errors(&errors);
            proof {
                assert forall|i: int| 0 <= i < output@.len() implies (#[trigger] output@[i]).span
                    == failures(fields.named@)[i].span && output@[i].message@ == failures(
                    fields.named@,
                )[i].error.message() by {
                    assert(failure_views(errors@)[i] == errors@[i]@);
                }
            }
            Expansion::Errors(output)
        },
        Ok(attributes) => Expansion::Impl(tables(&ast.ident, &attributes)),
    }
}

/// Expands the derive for a declaration, which has to be a struct with named
/// fields.
pub fn impl_guzzle(ast: &DeriveInput) -> (expansion: Expansion)
    requires
        ast.data matches Data::Struct(Fields::Named(fields)) && forall|i: int|
            0 <= i < fields.named@.len() ==> fields.named@[i].ident is Some,
    ensures
        ast.data matches Data::Struct(Fields::Named(fields)) && expands_to(
            ast.ident@,
            fields.named@,
            expansion,
        ),
{
    match &ast.data {
        Data::Struct(Fields::Named(fields)) => impl_guzzle_named_fields(ast, fields),
        _ => Expansion::Errors(Vec::new()),
    }
}

} // verus!
