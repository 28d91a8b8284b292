use tokio_thrift::codegen::{
    compile, const_to_literal, find_rust_namespace, gen_const, gen_enum, gen_struct,
    gen_typedef, ty_expr, Error,
};
use tokio_thrift::parser::{parse, ConstValue, Document, Ty};

fn parse_ok(text: &str) -> Document {
    parse(text).unwrap().unwrap()
}

#[test]
fn namespace_discovery() {
    let doc = parse_ok("namespace rust foo\nnamespace cpp bar\n");
    assert_eq!(doc.headers.len(), 2);
    let ns = find_rust_namespace(&doc).unwrap();
    assert_eq!(ns.module, "foo");
}

#[test]
fn namespace_missing() {
    let doc = parse_ok("namespace cpp bar\n");
    assert!(find_rust_namespace(&doc).is_none());
}

#[test]
fn enum_variant_with_index() {
    let doc = parse_ok("enum E { A = 1, B, C = 4; }");
    match &doc.definitions[0] {
        tokio_thrift::parser::Definition::Enum(e) => {
            assert_eq!(e.ident, "E");
            let got: Vec<(String, Option<i64>)> =
                e.variants.iter().map(|v| (v.ident.clone(), v.seq)).collect();
            assert_eq!(
                got,
                vec![
                    ("A".to_string(), Some(1)),
                    ("B".to_string(), None),
                    ("C".to_string(), Some(4)),
                ]
            );
        },
        other => panic!("expected an enum, got {:?}", other),
    }
}

#[test]
fn incomplete_input_is_none() {
    // the text ends in the middle of a field declaration
    assert_eq!(parse("struct Foo { 1: i32"), Ok(None));
}

#[test]
fn compile_emits_each_definition() {
    let doc = parse_ok(
        "namespace rust demo\nconst i32 answer = 42;\ntypedef string Name\nenum Color { Red, Green }\nstruct Point { 1: i32 x; 2: i32 y; }\nservice Greeter { string hello_name(1: string name); string hello(); }\n",
    );
    let out = compile(&doc).unwrap();
    assert!(out.contains("use std::collections::{HashMap, HashSet};\n"));
    assert!(out.contains("pub const answer: i32 = 42;\n"));
    assert!(out.contains("pub type Name = String;\n"));
    assert!(out.contains("pub enum Color {\n    Red,\n    Green,\n}\n"));
    assert!(out.contains("pub struct Point {\n    pub x: i32,\n    pub y: i32,\n}\n"));
    assert!(out.contains("pub trait GreeterService {\n"));
    assert!(out.contains("    fn hello_name(&self, name: String, ) -> ThriftResult<String>;\n"));
    assert!(out.contains("pub enum GreeterServiceMethodArgs {\n    Ahello_name(Greeterhello_nameArgs),\n    Ahello(GreeterhelloArgs),\n}\n"));
    assert!(out.contains("pub enum GreeterServiceMethodReturn {\n    Rhello_name(String),\n    Rhello(String),\n}\n"));
    assert!(out.contains("pub struct Greeterhello_nameArgs {\n    pub name: String,\n}\n"));

    // the wire code of the struct and of both sums
    assert!(out.contains("impl Serialize for Point {"));
    assert!(out.contains("impl Deserialize for Point {"));
    assert!(out.contains("let _ = s.write_field_begin(\"x\", ThriftType::I32, 1);"));
    assert!(out.contains("de.skip_field(f.ty)?;"));
    assert!(out.contains("impl Serialize for GreeterServiceMethodArgs {"));
    assert!(out.contains("impl Deserialize for GreeterServiceMethodArgs {"));
    assert!(out.contains("impl Serialize for GreeterServiceMethodReturn {"));
    assert!(out.contains("impl Deserialize for GreeterServiceMethodReturn {"));
    assert!(out.contains("s.write_message_begin(\"hello_name\", ThriftMessageType::Call)"));
    assert!(out.contains("s.write_message_begin(\"hello\", ThriftMessageType::Reply)"));
    assert!(out.contains("return Err(Error::UnknownMethod);"));

    // the server adapter and the client side
    assert!(out.contains("pub struct GreeterServer<S> {"));
    assert!(out.contains("pub fn call(&self, req: GreeterServiceMethodArgs) -> Result<GreeterServiceMethodReturn, ThriftError> {"));
    assert!(out.contains("pub fn make_hello_name_call(name: String, ) -> GreeterServiceMethodArgs {"));
    assert!(out.contains("pub fn match_hello_return(ret: GreeterServiceMethodReturn) -> Result<String, Error> {"));
    assert!(out.contains("_ => Err(Error::VariantMismatch),"));
}

#[test]
fn compile_rejects_field_without_id() {
    let doc = parse_ok("struct Bare { i32 x; }");
    assert!(matches!(compile(&doc), Err(Error::NotSupported(_))));
}

#[test]
fn compile_rejects_container_field() {
    let doc = parse_ok("struct Holder { 1: list<i32> xs; }");
    assert!(matches!(compile(&doc), Err(Error::NotSupported(_))));
}

#[test]
fn compile_rejects_union() {
    let doc = parse_ok("union U { 1: i32 a; }");
    match compile(&doc) {
        Err(Error::NotSupported(_)) => {},
        other => panic!("expected not-supported, got {:?}", other.map(|_| ())),
    }
}

#[test]
fn compile_rejects_exception() {
    let doc = parse_ok("exception X { 1: string why; }");
    assert!(matches!(compile(&doc), Err(Error::NotSupported(_))));
}

#[test]
fn compile_rejects_list_constant() {
    let doc = parse_ok("const i32 xs = [1, 2]");
    assert!(matches!(compile(&doc), Err(Error::NotSupported(_))));
}

#[test]
fn const_literals() {
    assert_eq!(const_to_literal(&ConstValue::Int(-5)).unwrap(), "-5");
    assert_eq!(const_to_literal(&ConstValue::Int(0)).unwrap(), "0");
    assert_eq!(
        const_to_literal(&ConstValue::Int(i64::MIN)).unwrap(),
        "-9223372036854775808"
    );
    assert_eq!(
        const_to_literal(&ConstValue::Double("1.5e3".to_string())).unwrap(),
        "1.5e3"
    );
    assert_eq!(
        const_to_literal(&ConstValue::String("hi".to_string())).unwrap(),
        "\"hi\""
    );
    assert!(matches!(
        const_to_literal(&ConstValue::List(vec![])),
        Err(Error::NotSupported(_))
    ));
}

#[test]
fn ty_rendering() {
    let m = Ty::Map_(Box::new(Ty::I32), Box::new(Ty::String));
    assert_eq!(m.to_string(), "HashMap<i32, String>");
    assert_eq!(m.to_protocol(), "ThriftType::Map");
    let l = Ty::List(Box::new(Ty::Set_(Box::new(Ty::Bool))));
    assert_eq!(l.to_string(), "Vec<HashSet<bool>>");
    assert_eq!(Ty::Double.to_string(), "f64");
    assert_eq!(Ty::Binary.to_string(), "Vec<u8>");
    assert_eq!(Ty::I8.to_protocol(), "ThriftType::Byte");
    assert_eq!(Ty::Binary.to_protocol(), "ThriftType::List");
    assert_eq!(Ty::Ident("Pt".to_string()).to_string(), "Pt");
    assert_eq!(Ty::from_name("i32".to_string()), Ty::I32);
    assert_eq!(
        Ty::from_name("Custom".to_string()),
        Ty::Ident("Custom".to_string())
    );
}

#[test]
fn ty_exprs() {
    assert_eq!(ty_expr(&Ty::String).unwrap(), "de.deserialize_str()");
    assert_eq!(ty_expr(&Ty::I32).unwrap(), "de.deserialize_i32()");
    assert_eq!(
        ty_expr(&Ty::Double).unwrap(),
        "de.deserialize_f64_bits().map(f64::from_bits)"
    );
    assert_eq!(
        ty_expr(&Ty::Ident("Color".to_string())).unwrap(),
        "Color::deserialize(de)"
    );
    assert!(matches!(
        ty_expr(&Ty::List(Box::new(Ty::I32))),
        Err(Error::NotSupported(_))
    ));
}

#[test]
fn gen_pieces() {
    let doc = parse_ok("enum C { R }\nstruct S { 1: bool on; }\ntypedef i64 Big\nconst string who = 'me'");
    match (&doc.definitions[0], &doc.definitions[1], &doc.definitions[2], &doc.definitions[3]) {
        (
            tokio_thrift::parser::Definition::Enum(e),
            tokio_thrift::parser::Definition::Struct(s),
            tokio_thrift::parser::Definition::Typedef(t),
            tokio_thrift::parser::Definition::Const(c),
        ) => {
            assert_eq!(gen_enum(e), "pub enum C {\n    R,\n}\n\n");
            let st = gen_struct(s).unwrap();
            assert!(st.starts_with("pub struct S {\n    pub on: bool,\n}\n\n"));
            assert!(st.contains("impl Serialize for S {"));
            assert!(st.contains("let _ = s.write_field_begin(\"on\", ThriftType::Bool, 1);"));
            assert!(st.contains("let _ = s.serialize_bool(self.on);"));
            assert!(st.contains("impl Deserialize for S {"));
            assert!(st.contains("let mut on: Option<bool> = None;"));
            assert!(st.contains("1 => {\n                    on = Some(de.deserialize_bool()?);"));
            assert!(st.contains("return Err(Error::MissingField);"));
            assert_eq!(gen_typedef(t), "pub type Big = i64;\n\n");
            assert_eq!(gen_const(c).unwrap(), "pub const who: String = \"me\";\n\n");
        },
        _ => panic!("unexpected definitions"),
    }
}

#[test]
fn parse_is_deterministic() {
    let text = "namespace rust demo\nstruct P { 1: i32 x; }\n";
    let a = parse_ok(text);
    let b = parse_ok(text);
    assert_eq!(a, b);
}

#[test]
fn rearrange_keeps_document() {
    let mut doc = parse_ok("struct P { 1: i32 x; }\n");
    let before = format!("{:?}", doc);
    doc.rearrange();
    assert_eq!(format!("{:?}", doc), before);
}
