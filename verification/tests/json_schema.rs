use pow::json_schema::{gen_type_name, process_ty, Fd, Schema, St, StructsTemplate};

#[test]
fn convert_simple_schema_to_st() {
    let leaf = |ty: &str| Schema { title: None, ty: ty.into(), properties: Some(vec![]) };
    let schema = Schema {
        title: Some("Person".into()),
        ty: "object".into(),
        properties: Some(vec![
            ("firstName".into(), leaf("string")),
            ("lastName".into(), leaf("string")),
            ("age".into(), leaf("integer")),
        ]),
    };
    let st_list = schema.to_st_list();
    assert_eq!(st_list.len(), 1);
    assert_eq!(
        st_list[0],
        St::new(
            "Person".into(),
            vec![
                Fd::new("first_name".into(), "String".into()),
                Fd::new("last_name".into(), "String".into()),
                Fd::new("age".into(), "i64".into()),
            ]
        )
    );
}

#[test]
fn convert_nest_schema_to_st() {
    let leaf = |ty: &str| Schema { title: None, ty: ty.into(), properties: None };
    let skill = Schema {
        title: Some("skill set".into()),
        ty: "object".into(),
        properties: Some(vec![("num".into(), leaf("float"))]),
    };
    let schema = Schema {
        title: Some("person".into()),
        ty: "object".into(),
        properties: Some(vec![("firstName".into(), leaf("string")), ("skill".into(), skill)]),
    };
    assert!(schema.convertible());
    let st_list = schema.to_st_list();
    println!("{:#?}", st_list);
    assert_eq!(st_list.len(), 2);
    assert_eq!(st_list[0], St::new("SkillSet".into(), vec![Fd::new("num".into(), "f64".into())]));
    assert_eq!(st_list[1].name(), "Person");
    assert_eq!(st_list[1].fields()[1], Fd::new("skill".into(), "SkillSet".into()));
    let template = StructsTemplate::new(st_list);
    assert_eq!(template.st_list().len(), 2);
}

#[test]
fn schemas_that_cannot_be_converted() {
    let bare = |ty: &str| Schema { title: None, ty: ty.into(), properties: None };
    assert!(!bare("string").convertible());
    assert!(bare("string").usable_as_property());
    assert!(!bare("boolean").usable_as_property());
    assert!(!bare("object").convertible());
    let untitled = Schema { title: None, ty: "object".into(), properties: Some(vec![]) };
    assert!(!untitled.convertible());
    let odd = Schema {
        title: Some("t".into()),
        ty: "object".into(),
        properties: Some(vec![("k".into(), bare("boolean"))]),
    };
    assert!(!odd.convertible());
}

#[test]
fn type_names_and_fields() {
    assert_eq!(gen_type_name(Some("my title"), "key"), "MyTitle");
    assert_eq!(gen_type_name(None, "some_key"), "SomeKey");
    let mut list = vec![];
    let nested = Schema { title: None, ty: "object".into(), properties: Some(vec![]) };
    assert!(!nested.usable_as_property());
    let titled = Schema { title: Some("in".into()), ty: "object".into(), properties: Some(vec![]) };
    let fd = process_ty(&mut list, "theKey", &titled);
    assert_eq!(fd, Fd::new("the_key".into(), "In".into()));
    assert_eq!(fd.name(), "the_key");
    assert_eq!(fd.ty(), "In");
    assert_eq!(list, vec![St::new("In".into(), vec![])]);
}
