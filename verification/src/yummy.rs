//! The derive in its first form: a field's keys are listed in an annotation
//! `#[yummy("one", "two")]`, and a field without one is keyed by its own name.

use vstd::prelude::*;
use crate::attr::{
    ArmModel, Attribute, AttributeModel, Field, FieldAttribute, GuzzleAttribute,
    GuzzleKeyedAttribute, KeyedModel, Keys,
};
use crate::derive::{
    arm_views, text_views, Arm, Data, DeriveInput, Fields, FieldsNamed, GuzzleImpl,
};
use crate::syntax::{entry_views, meta_list, parse_meta_list, string_in, string_of};
use crate::text::{push_char, str_eq};
use crate::token::{stream_text, write_stream};

verus! {

/// The entries of one annotation that is a list: for each entry the string it
/// stands for where it is a string literal, `None` where it is anything else.
#[derive(Clone, Debug, PartialEq, Eq)]
pub struct MetaList {
    pub nested: Vec<Option<String>>,
}

impl View for MetaList {
    type V = Seq<Option<Seq<char>>>;

    open spec fn view(&self) -> Seq<Option<Seq<char>>> {
        entry_views(self.nested@)
    }
}

/// The source text of an annotation: its name, a blank, and its arguments.
pub open spec fn attribute_text(attribute: Attribute) -> Seq<char> {
    attribute.path@ + seq![' '] + stream_text(attribute.tts@)
}

/// The string that an entry of a list stands for, where it is a string literal.
pub open spec fn entry_value(entry: Option<Seq<char>>) -> Option<Seq<char>> {
    match entry {
        Some(text) => string_in(text),
        None => None,
    }
}

/// The entries of an annotation, where it is named `yummy` and is a list: for
/// each entry the string it stands for where it is a string literal, `None`
/// where it is anything else.
pub open spec fn yummy_list(attribute: Attribute) -> Option<Seq<Option<Seq<char>>>> {
    if attribute.path@ == "yummy"@ {
        match meta_list(attribute_text(attribute)) {
            Some(entries) => Some(
                entries.map_values(|entry: Option<Seq<char>>| entry_value(entry)),
            ),
            None => None,
        }
    } else {
        None
    }
}

/// Reads the strings that the entries of a list stand for.
pub fn entry_values(entries: &Vec<Option<String>>) -> (values: Vec<Option<String>>)
    ensures
        entry_views(values@) == entry_views(entries@).map_values(
            |entry: Option<Seq<char>>| entry_value(entry),
        ),
{
    let mut values: Vec<Option<String>> = Vec::new();
    let mut i: usize = 0;
    while i < entries.len()
        invariant
            i <= entries.len(),
            values@.len() == i,
            forall|j: int|
                0 <= j < i ==> entry_views(values@)[j] == entry_value(
                    #[trigger] entry_views(entries@)[j],
                ),
        decreases entries.len() - i,
    {
        let value = match &entries[i] {
            Some(text) => string_of(text.as_str()),
            None => None,
        };
        values.push(value);
        i += 1;
    }
    proof {
        assert(entry_views(values@) =~= entry_views(entries@).map_values(
            |entry: Option<Seq<char>>| entry_value(entry),
        ));
    }
    values
}

/// The lists among the annotations named `yummy`, in their order.
pub open spec fn yummy_lists(attrs: Seq<Attribute>) -> Seq<Seq<Option<Seq<char>>>>
    decreases attrs.len(),
{
    if attrs.len() == 0 {
        Seq::empty()
    } else {
        let front = yummy_lists(attrs.drop_last());
        match yummy_list(attrs.last()) {
            Some(list) => front.push(list),
            None => front,
        }
    }
}

/// The lists by their views.
pub open spec fn list_views(meta: Seq<MetaList>) -> Seq<Seq<Option<Seq<char>>>> {
    meta.map_values(|list: MetaList| list@)
}

/// The lists among the annotations named `yummy`, in their order. An annotation
/// of another name, or of another form than `yummy(...)`, is passed over.
pub fn get_yummy_meta(attrs: &Vec<Attribute>) -> (meta: Vec<MetaList>)
    ensures
        list_views(meta@) == yummy_lists(attrs@),
{
    let mut meta: Vec<MetaList> = Vec::new();
    let mut i: usize = 0;
    proof {
        assert(list_views(meta@) =~= yummy_lists(attrs@.take(0)));
    }
    while i < attrs.len()
        invariant
            i <= attrs.len(),
            list_views(meta@) == yummy_lists(attrs@.take(i as int)),
        decreases attrs.len() - i,
    {
        let ghost before = meta@;
        proof {
            assert(attrs@.take(i + 1).drop_last() =~= attrs@.take(i as int));
        }
        let attribute = &attrs[i];
        if str_eq(attribute.path.as_str(), "yummy") {
            let mut text = attribute.path.clone();
            push_char(&mut text, ' ');
            write_stream(&attribute.tts, 0, attribute.tts.len(), &mut text);
            proof {
                assert(attribute.tts@.subrange(0, attribute.tts@.len() as int) =~= attribute.tts@);
                assert(text@ =~= attribute_text(*attribute));
            }
            match parse_meta_list(text.as_str()) {
                Some(entries) => {
                    meta.push(MetaList { nested: entry_values(&entries) });
                    proof {
                        assert(list_views(meta@) =~= list_views(before).push(
                            yummy_list(*attribute)->0,
                        ));
                    }
                },
                None => {},
            }
        }
        i += 1;
    }
    proof {
        assert(attrs@.take(i as int) =~= attrs@);
    }
    meta
}

/// The entries of all the lists, one list after the other.
pub open spec fn entries_of(meta: Seq<Seq<Option<Seq<char>>>>) -> Seq<Option<Seq<char>>>
    decreases meta.len(),
{
    if meta.len() == 0 {
        Seq::empty()
    } else {
        entries_of(meta.drop_last()) + meta.last()
    }
}

/// Whether every entry of every list is a string literal.
pub open spec fn only_literals(meta: Seq<Seq<Option<Seq<char>>>>) -> bool {
    forall|i: int, j: int|
        0 <= i < meta.len() && 0 <= j < meta[i].len() ==> (#[trigger] meta[i][j]) is Some
}

/// The names that the lists give: the strings of their entries, one list after
/// the other.
pub open spec fn names_in(meta: Seq<Seq<Option<Seq<char>>>>) -> Seq<Seq<char>> {
    Seq::new(entries_of(meta).len(), |i: int| entries_of(meta)[i]->0)
}

/// Whether every entry of every list is a string literal.
pub fn only_string_literals(meta: &Vec<MetaList>) -> (only: bool)
    ensures
        only == only_literals(list_views(meta@)),
{
    let mut i: usize = 0;
    while i < meta.len()
        invariant
            i <= meta.len(),
            forall|k: int, j: int|
                0 <= k < i && 0 <= j < list_views(meta@)[k].len() ==> (#[trigger] list_views(
                    meta@,
                )[k][j]) is Some,
        decreases meta.len() - i,
    {
        let list = &meta[i];
        let mut j: usize = 0;
        while j < list.nested.len()
            invariant
                j <= list.nested.len(),
                i < meta.len(),
                list == &meta@[i as int],
                forall|k: int| 0 <= k < j ==> (#[trigger] list@[k]) is Some,
            decreases list.nested.len() - j,
        {
            if list.nested[j].is_none() {
                proof {
                    assert(list_views(meta@)[i as int][j as int] is None);
                }
                return false;
            }
            assert(list@[j as int] is Some);
            j += 1;
        }
        assert(list_views(meta@)[i as int] == list@);
        i += 1;
    }
    true
}

/// The names that the lists give. Every entry has to be a string literal.
pub fn names_from_meta(meta: &Vec<MetaList>) -> (names: Vec<String>)
    requires
        only_literals(list_views(meta@)),
    ensures
        text_views(names@) == names_in(list_views(meta@)),
{
    let mut names: Vec<String> = Vec::new();
    let ghost views = list_views(meta@);
    let mut i: usize = 0;
    proof {
        assert(views.take(0) =~= Seq::<Seq<Option<Seq<char>>>>::empty());
    }
    while i < meta.len()
        invariant
            i <= meta.len(),
            views == list_views(meta@),
            only_literals(views),
            names@.len() == entries_of(views.take(i as int)).len(),
            forall|k: int|
                0 <= k < names@.len() ==> entries_of(views.take(i as int))[k] == Some(
                    (#[trigger] names@[k])@,
                ),
        decreases meta.len() - i,
    {
        let list = &meta[i];
        let ghost done = entries_of(views.take(i as int));
        proof {
            assert(views.take(i + 1).drop_last() =~= views.take(i as int));
            assert(views.take(i + 1).last() == list@);
        }
        let mut j: usize = 0;
        while j < list.nested.len()
            invariant
                j <= list.nested.len(),
                views == list_views(meta@),
                only_literals(views),
                i < meta.len(),
                list == &meta@[i as int],
                done == entries_of(views.take(i as int)),
                names@.len() == done.len() + j,
                forall|k: int|
                    0 <= k < names@.len() ==> (done + list@.take(j as int))[k] == Some(
                        (#[trigger] names@[k])@,
                    ),
            decreases list.nested.len() - j,
        {
            proof {
                assert(views[i as int][j as int] is Some);
                assert(views[i as int] == list@);
            }
            match &list.nested[j] {
                Some(name) => {
                    names.push(name.clone());
                    proof {
                        assert(list@[j as int] == Some(name@));
                        assert(list@.take(j + 1) =~= list@.take(j as int).push(list@[j as int]));
                    }
                },
                None => {},
            }
            j += 1;
        }
        proof {
            assert(list@.take(j as int) =~= list@);
        }
        i += 1;
    }
    proof {
        assert(views.take(i as int) =~= views);
        assert(text_views(names@) =~= names_in(views));
    }
    names
}

/// The keys of a field: the names that its lists give, or its own name where
/// they give none.
pub open spec fn keys_or_name(ident: Seq<char>, meta: Seq<Seq<Option<Seq<char>>>>) -> Seq<
    Seq<char>,
> {
    if names_in(meta).len() == 0 {
        seq![ident]
    } else {
        names_in(meta)
    }
}

/// The keys of the field `ident`, with the field's name. Every entry of the
/// lists has to be a string literal.
pub fn get_key_and_field<'a>(ident: &'a String, meta: &Vec<MetaList>) -> (found: (
    Vec<String>,
    &'a String,
))
    requires
        only_literals(list_views(meta@)),
    ensures
        found.1 == ident,
        text_views(found.0@) == keys_or_name(ident@, list_views(meta@)),
{
    let mut name = names_from_meta(meta);
    if name.len() == 0 {
        name.push(ident.clone());
        proof {
            assert(text_views(name@) =~= seq![ident@]);
        }
    }
    (name, ident)
}

/// A field's name with its keys.
#[derive(Clone, Debug, PartialEq, Eq)]
pub struct YummyAttribute {
    pub field: String,
    pub keys: Vec<String>,
}

/// The lines that a field with these keys adds to the key table.
pub open spec fn yummy_arms(field: Seq<char>, keys: Seq<Seq<char>>) -> Seq<ArmModel> {
    Seq::new(keys.len(), |i: int| ArmModel { field, matcher: keys[i], parser: None })
}

/// The keys of a named field; `None` where an entry of its lists is no string
/// literal.
pub open spec fn field_keys(field: Field) -> Option<Seq<Seq<char>>> {
    if only_literals(yummy_lists(field.attrs@)) {
        Some(keys_or_name(field.ident->0@, yummy_lists(field.attrs@)))
    } else {
        None
    }
}

impl YummyAttribute {
    /// The lines that the field adds to the key table, each as the field's name
    /// and the key.
    pub fn get_arm_parts(&self) -> (parts: Vec<(&String, &String)>)
        ensures
            parts@.len() == self.keys@.len(),
            forall|i: int|
                0 <= i < parts@.len() ==> (#[trigger] parts@[i]).0 == &self.field && parts@[i].1
                    == &self.keys@[i],
    {
        let mut parts: Vec<(&String, &String)> = Vec::new();
        let mut i: usize = 0;
        while i < self.keys.len()
            invariant
                i <= self.keys.len(),
                parts@.len() == i,
                forall|j: int|
                    0 <= j < i ==> (#[trigger] parts@[j]).0 == &self.field && parts@[j].1
                        == &self.keys@[j],
            decreases self.keys.len() - i,
        {
            parts.push((&self.field, &self.keys[i]));
            i += 1;
        }
        parts
    }

    /// The field as a keyed field without a parser.
    pub fn keyed(self) -> (attribute: FieldAttribute)
        ensures
            attribute.field == self.field,
            attribute@.attributes == Some(
                AttributeModel::Keyed(KeyedModel { keys: text_views(self.keys@), parser: None }),
            ),
            attribute@.names_itself(),
    {
        let keys = Keys(self.keys);
        FieldAttribute {
            field: self.field,
            attributes: Some(
                GuzzleAttribute::KeyedAttribute(GuzzleKeyedAttribute { keys, parser: None }),
            ),
        }
    }

    /// Reads the keys of a named field from its annotations. There is no
    /// result where an entry of a list is no string literal.
    pub fn from(field: &Field) -> (result: Option<YummyAttribute>)
        requires
            field.ident is Some,
        ensures
            match result {
                Some(found) => found.field == field.ident->0 && field_keys(*field) == Some(
                    text_views(found.keys@),
                ),
                None => field_keys(*field) is None,
            },
    {
        let meta = get_yummy_meta(&field.attrs);
        if !only_string_literals(&meta) {
            return None;
        }
        match &field.ident {
            Some(ident) => {
                let (keys, field) = get_key_and_field(ident, &meta);
                Some(YummyAttribute { field: field.clone(), keys })
            },
            None => None,
        }
    }
}

/// The key table of the fields; `None` where an entry of a list of one of them
/// is no string literal.
pub open spec fn yummy_table(fields: Seq<Field>) -> Option<Seq<ArmModel>>
    decreases fields.len(),
{
    if fields.len() == 0 {
        Some(Seq::empty())
    } else {
        match (yummy_table(fields.drop_last()), field_keys(fields.last())) {
            (Some(front), Some(keys)) => Some(front + yummy_arms(fields.last().ident->0@, keys)),
            _ => None,
        }
    }
}

/// A field behind one that gives no table does not mend the table.
pub proof fn lemma_yummy_table_refused(fields: Seq<Field>, n: int)
    requires
        0 <= n <= fields.len(),
        yummy_table(fields.take(n)) is None,
    ensures
        yummy_table(fields) is None,
    decreases fields.len(),
{
    if n == fields.len() {
        assert(fields.take(n) =~= fields);
    } else {
        assert(fields.drop_last().take(n) =~= fields.take(n));
        lemma_yummy_table_refused(fields.drop_last(), n);
    }
}

/// The dispatch tables of a struct with named fields: no nested records, and
/// each field keyed as its annotations say. There are no tables where an entry
/// of a list is no string literal.
pub fn impl_yummy_metadata_named_fields(ast: &DeriveInput, fields: &FieldsNamed) -> (result:
    Option<GuzzleImpl>)
    requires
        forall|i: int| 0 <= i < fields.named@.len() ==> fields.named@[i].ident is Some,
    ensures
        match result {
            Some(found) => found.name == ast.ident && found.deep_guzzles@.len() == 0
                && yummy_table(fields.named@) == Some(arm_views(found.arms@)),
            None => yummy_table(fields.named@) is None,
        },
{
    let mut arms: Vec<Arm> = Vec::new();
    let mut i: usize = 0;
    proof {
        assert(arm_views(arms@) =~= Seq::<ArmModel>::empty());
        assert(fields.named@.take(0) =~= Seq::<Field>::empty());
    }
    while i < fields.named.len()
        invariant
            i <= fields.named.len(),
            forall|j: int| 0 <= j < fields.named@.len() ==> fields.named@[j].ident is Some,
            yummy_table(fields.named@.take(i as int)) == Some(arm_views(arms@)),
        decreases fields.named.len() - i,
    {
        proof {
            assert(fields.named@.take(i + 1).drop_last() =~= fields.named@.take(i as int));
        }
        let attribute = match YummyAttribute::from(&fields.named[i]) {
            Some(attribute) => attribute,
            None => {
                proof {
                    lemma_yummy_table_refused(fields.named@, i + 1);
                }
                return None;
            },
        };
        let ghost old_arms = arms@;
        let ghost lines = yummy_arms(attribute.field@, text_views(attribute.keys@));
        let parts = attribute.get_arm_parts();
        let mut j: usize = 0;
        while j < parts.len()
            invariant
                j <= parts.len(),
                parts@.len() == attribute.keys@.len(),
                lines == yummy_arms(attribute.field@, text_views(attribute.keys@)),
                forall|k: int|
                    0 <= k < parts@.len() ==> (#[trigger] parts@[k]).0 == &attribute.field
                        && parts@[k].1 == &attribute.keys@[k],
                arm_views(arms@) == arm_views(old_arms) + lines.take(j as int),
            decreases parts.len() - j,
        {
            let ghost before = arms@;
            let (key, matcher) = parts[j];
            arms.push(Arm { key: key.clone(), matcher: matcher.clone(), parser: None });
            proof {
                assert(arm_views(arms@) =~= arm_views(before).push(lines[j as int]));
                assert(lines.take(j + 1) =~= lines.take(j as int).push(lines[j as int]));
            }
            j += 1;
        }
        proof {
            assert(lines.take(j as int) =~= lines);
        }
        i += 1;
    }
    proof {
        assert(fields.named@.take(i as int) =~= fields.named@);
    }
    Some(GuzzleImpl { name: ast.ident.clone(), deep_guzzles: Vec::new(), arms })
}

/// The dispatch tables of a declaration, which has to be a struct with named
/// fields.
pub fn impl_yummy_metadata(ast: &DeriveInput) -> (result: Option<GuzzleImpl>)
    requires
        ast.data matches Data::Struct(Fields::Named(fields)) && forall|i: int|
            0 <= i < fields.named@.len() ==> fields.named@[i].ident is Some,
    ensures
        ast.data matches Data::Struct(Fields::Named(fields)) && match result {
            Some(found) => found.name == ast.ident && found.deep_guzzles@.len() == 0
                && yummy_table(fields.named@) == Some(arm_views(found.arms@)),
            None => yummy_table(fields.named@) is None,
        },
{
    match &ast.data {
        Data::Struct(Fields::Named(fields)) => impl_yummy_metadata_named_fields(ast, fields),
        _ => None,
    }
}

} // verus!
