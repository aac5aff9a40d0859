//! Turning a JSON schema into the list of structs that it describes.

use crate::text::same_text;
use vstd::prelude::*;

verus! {

/// `heck::AsUpperCamelCase`: the name in upper camel case.
pub uninterp spec fn upper_camel_case_of(name: Seq<char>) -> Seq<char>;

/// `heck::AsSnakeCase`: the name in snake case.
pub uninterp spec fn snake_case_of(name: Seq<char>) -> Seq<char>;

/// What `heck::AsUpperCamelCase` displays for the name: its words, each capitalised,
/// without anything between them.
#[verifier::external_body]
fn to_pascal_case(name: &str) -> (cased: String)
    ensures
        cased@ == upper_camel_case_of(name@),
{
    heck::AsUpperCamelCase(name).to_string()
}

/// What `heck::AsSnakeCase` displays for the name: its words in lowercase with an
/// underscore between them.
#[verifier::external_body]
fn to_snake_case(name: &str) -> (cased: String)
    ensures
        cased@ == snake_case_of(name@),
{
    heck::AsSnakeCase(name).to_string()
}

pub struct StructsTemplate {
    st_list: Vec<St>,
}

#[derive(Debug)]
pub struct Schema {
    pub title: Option<String>,
    pub ty: String,
    pub properties: Option<Vec<(String, Schema)>>,
}

#[derive(Debug, PartialEq, Eq)]
pub struct St {
    name: String,
    fields: Vec<Fd>,
}

#[derive(Debug, PartialEq, Eq)]
pub struct Fd {
    name: String,
    ty: String,
}

/// Mathematical value of an [`Fd`].
pub struct FdView {
    pub name: Seq<char>,
    pub ty: Seq<char>,
}

/// Mathematical value of an [`St`].
pub struct StView {
    pub name: Seq<char>,
    pub fields: Seq<FdView>,
}

impl View for Fd {
    type V = FdView;

    closed spec fn view(&self) -> FdView {
        FdView { name: self.name@, ty: self.ty@ }
    }
}

/// The fields as mathematical values.
pub open spec fn fd_views(fields: Seq<Fd>) -> Seq<FdView> {
    Seq::new(fields.len(), |i: int| fields[i]@)
}

/// The structs as mathematical values.
pub open spec fn st_views(list: Seq<St>) -> Seq<StView> {
    Seq::new(list.len(), |i: int| list[i]@)
}

impl View for St {
    type V = StView;

    closed spec fn view(&self) -> StView {
        StView { name: self.name@, fields: fd_views(self.fields@) }
    }
}

impl StructsTemplate {
    /// The structs to render.
    pub closed spec fn list(&self) -> Seq<St> {
        self.st_list@
    }

    pub fn new(st_list: Vec<St>) -> (template: Self)
        ensures
            template.list() == st_list@,
    {
        Self { st_list }
    }

    /// The structs to render.
    pub fn st_list(&self) -> (list: &Vec<St>)
        ensures
            list@ == self.list(),
    {
        &self.st_list
    }
}

impl St {
    pub fn new(name: String, fields: Vec<Fd>) -> (st: Self)
        ensures
            st@ == (StView { name: name@, fields: fd_views(fields@) }),
    {
        Self { name, fields }
    }

    pub fn name(&self) -> (name: &String)
        ensures
            name@ == self@.name,
    {
        &self.name
    }

    pub fn fields(&self) -> (fields: &Vec<Fd>)
        ensures
            fd_views(fields@) == self@.fields,
    {
        &self.fields
    }
}

impl Fd {
    pub fn new(name: String, ty: String) -> (fd: Self)
        ensures
            fd@ == (FdView { name: name@, ty: ty@ }),
    {
        Self { name, ty }
    }

    pub fn name(&self) -> (name: &String)
        ensures
            name@ == self@.name,
    {
        &self.name
    }

    pub fn ty(&self) -> (ty: &String)
        ensures
            ty@ == self@.ty,
    {
        &self.ty
    }
}

/// Whether the schema is an object with a title and properties, each of them an integer,
/// a float, a string, or an object of that kind again.
pub open spec fn is_convertible(schema: Schema) -> bool
    decreases schema, 0nat,
{
    &&& schema.ty@ == "object"@
    &&& schema.title is Some
    &&& schema.properties matches Some(props) && forall|i: int|
        0 <= i < props@.len() ==> is_property(#[trigger] props@[i].1)
}

/// Whether the schema can be a property.
pub open spec fn is_property(schema: Schema) -> bool
    decreases schema, 1nat,
{
    if schema.ty@ == "object"@ {
        is_convertible(schema)
    } else {
        schema.ty@ == "integer"@ || schema.ty@ == "float"@ || schema.ty@ == "string"@
    }
}

/// The name of the type of a struct: its title, or else the key it stands under, in
/// upper camel case.
pub open spec fn type_name_of(title: Option<Seq<char>>, key: Seq<char>) -> Seq<char> {
    upper_camel_case_of(
        match title {
            Some(t) => t,
            None => key,
        },
    )
}

/// The field that the property under `key` becomes.
pub open spec fn field_of(key: Seq<char>, schema: Schema) -> FdView {
    FdView {
        name: snake_case_of(key),
        ty: if schema.ty@ == "object"@ {
            type_name_of(
                match schema.title {
                    Some(t) => Some(t@),
                    None => None,
                },
                key,
            )
        } else if schema.ty@ == "integer"@ {
            "i64"@
        } else if schema.ty@ == "float"@ {
            "f64"@
        } else {
            "String"@
        },
    }
}

/// The fields that the first `n` properties become.
pub open spec fn fields_upto(props: Seq<(String, Schema)>, n: int) -> Seq<FdView> {
    Seq::new(n as nat, |i: int| field_of(props[i].0@, props[i].1))
}

/// The structs that the objects among the first `n` properties describe, in the order of
/// the properties.
pub open spec fn nested_upto(props: Seq<(String, Schema)>, n: int) -> Seq<StView>
    decreases props, n,
{
    if n <= 0 || n > props.len() {
        Seq::empty()
    } else {
        nested_upto(props, n - 1) + nested_of(props[n - 1].1)
    }
}

/// The structs that a property describes: none unless it is an object.
pub open spec fn nested_of(schema: Schema) -> Seq<StView>
    decreases schema, 1nat,
{
    if schema.ty@ == "object"@ {
        st_list_of(schema)
    } else {
        Seq::empty()
    }
}

/// The structs that an object describes: those of its properties first, then its own.
pub open spec fn st_list_of(schema: Schema) -> Seq<StView>
    decreases schema, 0nat,
{
    match (schema.properties, schema.title) {
        (Some(props), Some(title)) => nested_upto(props@, props@.len() as int).push(
            StView {
                name: upper_camel_case_of(title@),
                fields: fields_upto(props@, props@.len() as int),
            },
        ),
        _ => Seq::empty(),
    }
}

impl Schema {
    /// Whether the schema can be turned into structs.
    pub fn convertible(&self) -> (ok: bool)
        ensures
            ok == is_convertible(*self),
        decreases *self, 0nat,
    {
        proof {
            reveal_strlit("object");
        }
        if !same_text(self.ty.as_str(), "object") || self.title.is_none() {
            return false;
        }
        let props = match &self.properties {
            Some(props) => props,
            None => {
                return false;
            },
        };
        let mut i: usize = 0;
        while i < props.len()
            invariant
                i <= props@.len(),
                self.properties == Some(*props),
                forall|k: int| 0 <= k < i ==> is_property(#[trigger] props@[k].1),
            decreases props@.len() - i,
        {
            proof {
                vstd::std_specs::vec::axiom_vec_index_decreases(*props, i as int);
                assert(self.properties->0 == *props);
                assert(decreases_to!(self.properties => self.properties->0));
                assert(decreases_to!(*self => props@[i as int].1));
            }
            if !props[i].1.usable_as_property() {
                return false;
            }
            i += 1;
        }
        true
    }

    /// Whether the schema can be a property of an object.
    pub fn usable_as_property(&self) -> (ok: bool)
        ensures
            ok == is_property(*self),
        decreases *self, 1nat,
    {
        proof {
            reveal_strlit("object");
            reveal_strlit("integer");
            reveal_strlit("float");
            reveal_strlit("string");
        }
        let ty = self.ty.as_str();
        if same_text(ty, "object") {
            self.convertible()
        } else {
            same_text(ty, "integer") || same_text(ty, "float") || same_text(ty, "string")
        }
    }

    /// The structs that the schema describes: for every property that is an object its
    /// structs, in the order of the properties, and at the end the struct of the schema
    /// itself, named by its title, with one field for every property.
    pub fn to_st_list(&self) -> (list: Vec<St>)
        requires
            is_convertible(*self),
        ensures
            st_views(list@) == st_list_of(*self),
        decreases *self, 0nat,
    {
        let mut st_list: Vec<St> = Vec::new();
        let mut fields: Vec<Fd> = Vec::new();
        let title = match &self.title {
            Some(title) => title,
            None => {
                return st_list;
            },
        };
        let props = match &self.properties {
            Some(props) => props,
            None => {
                return st_list;
            },
        };
        let mut i: usize = 0;
        assert(st_views(st_list@) =~= nested_upto(props@, 0));
        assert(fd_views(fields@) =~= fields_upto(props@, 0));
        while i < props.len()
            invariant
                i <= props@.len(),
                self.properties == Some(*props),
                forall|k: int| 0 <= k < props@.len() ==> is_property(#[trigger] props@[k].1),
                st_views(st_list@) == nested_upto(props@, i as int),
                fd_views(fields@) == fields_upto(props@, i as int),
            decreases props@.len() - i,
        {
            let ghost listed = st_views(st_list@);
            let ghost fielded = fd_views(fields@);
            proof {
                vstd::std_specs::vec::axiom_vec_index_decreases(*props, i as int);
                assert(self.properties->0 == *props);
                assert(decreases_to!(self.properties => self.properties->0));
                assert(decreases_to!(*self => props@[i as int].1));
            }
            let fd = process_ty(&mut st_list, props[i].0.as_str(), &props[i].1);
            let ghost made = fd@;
            fields.push(fd);
            i += 1;
            proof {
                assert(fd_views(fields@) =~= fielded.push(made));
                assert(fielded.push(made) =~= fields_upto(props@, i as int));
            }
        }
        let name = to_pascal_case(title.as_str());
        let ghost listed = st_views(st_list@);
        let st = St::new(name, fields);
        st_list.push(st);
        assert(st_views(st_list@) =~= listed.push(st@));
        st_list
    }
}

/// Turns one property into a field. The structs of a property that is an object are
/// appended to `st_list`.
pub fn process_ty(st_list: &mut Vec<St>, key: &str, schema: &Schema) -> (fd: Fd)
    requires
        is_property(*schema),
    ensures
        fd@ == field_of(key@, *schema),
        st_views(final(st_list)@) == st_views(old(st_list)@) + nested_of(*schema),
    decreases *schema, 1nat,
{
    let name = to_snake_case(key);
    let ty = schema.ty.as_str();
    proof {
        reveal_strlit("object");
        reveal_strlit("integer");
        reveal_strlit("float");
        reveal_strlit("string");
    }
    if same_text(ty, "object") {
        let mut list = schema.to_st_list();
        let ghost before = st_views(st_list@);
        let ghost added = st_views(list@);
        st_list.append(&mut list);
        assert(st_views(st_list@) =~= before + added);
        let title = match &schema.title {
            Some(t) => Some(t.as_str()),
            None => None,
        };
        Fd::new(name, gen_type_name(title, key))
    } else {
        assert(st_views(st_list@) =~= st_views(old(st_list)@) + nested_of(*schema));
        if same_text(ty, "integer") {
            Fd::new(name, "i64".to_owned())
        } else if same_text(ty, "float") {
            Fd::new(name, "f64".to_owned())
        } else {
            Fd::new(name, "String".to_owned())
        }
    }
}

/// The name of a type: `first`, or `second` where there is no first, in upper camel case.
pub fn gen_type_name(first: Option<&str>, second: &str) -> (name: String)
    ensures
        name@ == type_name_of(
            match first {
                Some(f) => Some(f@),
                None => None,
            },
            second@,
        ),
{
    match first {
        Some(first) => to_pascal_case(first),
        None => to_pascal_case(second),
    }
}

} // verus!
