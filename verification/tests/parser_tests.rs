use tokio_thrift::parser::{
    base_type, comment, const_, const_value, container_type, definition, definition_type,
    document, double_constant, enum_, exception, field, field_id, field_req, field_type,
    function, function_type, header, identifier, include_, int_constant, list_type, literal,
    map_type, namespace, service, set_type, struct_, throws, typedef, union, Const, ConstValue,
    Definition, Document, Enum, Exception, Header, Include, Namespace, Service, ServiceMethod,
    Struct, StructField, Ty, Typedef, Union, Variant,
};

#[test]
fn test_document() {
    assert_eq!(
        document(b"include \"foo.thrift\" ", 0).unwrap().0,
        Document {
            headers: vec![Header::Include(Include { path: "foo.thrift".to_string() })],
            definitions: vec![],
        }
    );

    assert_eq!(
        document(b"const i32 foo = 1;", 0).unwrap().0,
        Document {
            headers: vec![],
            definitions: vec![Definition::Const(Const {
                ident: "foo".to_string(),
                ty: Ty::I32,
                value: ConstValue::Int(1),
            })],
        }
    );

    assert_eq!(
        document(
            b"\ninclude \"foo.thrift\"\n\nconst i32 foo = 1\n\nstruct Foo {}\n\n",
            0
        )
        .unwrap()
        .0,
        Document {
            headers: vec![Header::Include(Include { path: "foo.thrift".to_string() })],
            definitions: vec![
                Definition::Const(Const {
                    ident: "foo".to_string(),
                    ty: Ty::I32,
                    value: ConstValue::Int(1),
                }),
                Definition::Struct(Struct { ident: "Foo".to_string(), fields: vec![] }),
            ],
        }
    );
}

#[test]
fn test_header() {
    assert_eq!(
        header(b"include \"foo.thrift\"", 0).unwrap().0,
        Header::Include(Include { path: "foo.thrift".to_string() })
    );

    assert_eq!(
        header(b"namespace rust aaaa", 0).unwrap().0,
        Header::Namespace(Namespace {
            lang: "rust".to_string(),
            module: "aaaa".to_string(),
        })
    );
}

#[test]
fn test_include() {
    assert_eq!(
        include_(b"include \"foo.thrift\"", 0).unwrap().0,
        Include { path: "foo.thrift".to_string() }
    );
}

#[test]
fn test_namespace() {
    assert_eq!(
        namespace(b"namespace rust aaaa", 0).unwrap().0,
        Namespace { lang: "rust".to_string(), module: "aaaa".to_string() }
    );

    assert_eq!(
        namespace(b"namespace ruby Aaa", 0).unwrap().0,
        Namespace { lang: "ruby".to_string(), module: "Aaa".to_string() }
    );
}

#[test]
fn test_definition() {
    assert_eq!(
        definition(b"const i32 foo = 1;", 0).unwrap().0,
        Definition::Const(Const {
            ident: "foo".to_string(),
            ty: Ty::I32,
            value: ConstValue::Int(1),
        })
    );

    assert_eq!(
        definition(b"typedef string foo", 0).unwrap().0,
        Definition::Typedef(Typedef { ty: Ty::String, ident: "foo".to_string() })
    );

    assert_eq!(
        definition(b"enum Foo {}", 0).unwrap().0,
        Definition::Enum(Enum { ident: "Foo".to_string(), variants: vec![] })
    );

    assert_eq!(
        definition(b"struct Foo {}", 0).unwrap().0,
        Definition::Struct(Struct { ident: "Foo".to_string(), fields: vec![] })
    );

    assert_eq!(
        definition(b"union Foo {}", 0).unwrap().0,
        Definition::Union(Union { ident: "Foo".to_string(), fields: vec![] })
    );

    assert_eq!(
        definition(b"exception Foo {}", 0).unwrap().0,
        Definition::Exception(Exception { ident: "Foo".to_string(), fields: vec![] })
    );

    assert_eq!(
        definition(b"service Foo {} ", 0).unwrap().0,
        Definition::Service(Service {
            extends: None,
            ident: "Foo".to_string(),
            methods: vec![],
        })
    );
}

#[test]
fn test_const() {
    assert_eq!(
        const_(b"const i32 foo = 1;", 0).unwrap().0,
        Const { ident: "foo".to_string(), ty: Ty::I32, value: ConstValue::Int(1) }
    );
    assert_eq!(
        const_(b"const i32 foo = 1,", 0).unwrap().0,
        Const { ident: "foo".to_string(), ty: Ty::I32, value: ConstValue::Int(1) }
    );
}

#[test]
fn test_typedef() {
    assert_eq!(
        typedef(b"typedef string foo", 0).unwrap().0,
        Typedef { ty: Ty::String, ident: "foo".to_string() }
    );
}

#[test]
fn test_enum() {
    assert_eq!(
        enum_(b"enum Foo {}", 0).unwrap().0,
        Enum { ident: "Foo".to_string(), variants: vec![] }
    );

    assert_eq!(
        enum_(b"enum Foo {\nfoo\n}", 0).unwrap().0,
        Enum {
            ident: "Foo".to_string(),
            variants: vec![Variant { ident: "foo".to_string(), seq: None }],
        }
    );

    assert_eq!(
        enum_(b"enum Foo {\nfoo\nbar\n}", 0).unwrap().0,
        Enum {
            ident: "Foo".to_string(),
            variants: vec![
                Variant { ident: "foo".to_string(), seq: None },
                Variant { ident: "bar".to_string(), seq: None },
            ],
        }
    );

    assert_eq!(
        enum_(b"enum Foo {\nfoo,\nbar,\n}", 0).unwrap().0,
        Enum {
            ident: "Foo".to_string(),
            variants: vec![
                Variant { ident: "foo".to_string(), seq: None },
                Variant { ident: "bar".to_string(), seq: None },
            ],
        }
    );

    assert_eq!(
        enum_(b"enum Foo {\nfoo;\nbar;\n}", 0).unwrap().0,
        Enum {
            ident: "Foo".to_string(),
            variants: vec![
                Variant { ident: "foo".to_string(), seq: None },
                Variant { ident: "bar".to_string(), seq: None },
            ],
        }
    );
}

#[test]
fn test_struct() {
    assert_eq!(
        struct_(b"struct Foo {}", 0).unwrap().0,
        Struct { ident: "Foo".to_string(), fields: vec![] }
    );

    assert_eq!(
        struct_(b"struct Foo {1: required string foo}", 0).unwrap().0,
        Struct {
            ident: "Foo".to_string(),
            fields: vec![StructField {
                seq: Some(1),
                optional: false,
                ident: "foo".to_string(),
                ty: Ty::String,
                value: None,
            }],
        }
    );
}

#[test]
fn test_union() {
    assert_eq!(
        union(b"union Foo {}", 0).unwrap().0,
        Union { ident: "Foo".to_string(), fields: vec![] }
    );

    assert_eq!(
        union(b"union Foo {1: required string foo}", 0).unwrap().0,
        Union {
            ident: "Foo".to_string(),
            fields: vec![StructField {
                seq: Some(1),
                optional: false,
                ident: "foo".to_string(),
                ty: Ty::String,
                value: None,
            }],
        }
    );
}

#[test]
fn test_exception() {
    assert_eq!(
        exception(b"exception Foo {}", 0).unwrap().0,
        Exception { ident: "Foo".to_string(), fields: vec![] }
    );

    assert_eq!(
        exception(b"exception Foo {1: required string foo}", 0).unwrap().0,
        Exception {
            ident: "Foo".to_string(),
            fields: vec![StructField {
                seq: Some(1),
                optional: false,
                ident: "foo".to_string(),
                ty: Ty::String,
                value: None,
            }],
        }
    );
}

#[test]
fn test_service() {
    assert_eq!(
        service(b"service Foo {\n}\n", 0).unwrap().0,
        Service { extends: None, ident: "Foo".to_string(), methods: vec![] }
    );

    assert_eq!(
        service(b"service Foo {\nvoid foo(),\n}\n", 0).unwrap().0,
        Service {
            extends: None,
            ident: "Foo".to_string(),
            methods: vec![ServiceMethod {
                oneway: false,
                ident: "foo".to_string(),
                ty: Ty::Void,
                args: vec![],
                throws: None,
            }],
        }
    );

    assert_eq!(
        service(b"service Foo {\nvoid foo();\n}\n", 0).unwrap().0,
        Service {
            extends: None,
            ident: "Foo".to_string(),
            methods: vec![ServiceMethod {
                oneway: false,
                ident: "foo".to_string(),
                ty: Ty::Void,
                args: vec![],
                throws: None,
            }],
        }
    );

    assert_eq!(
        service(b"service Foo {\nvoid foo()\nvoid bar()\n}\n", 0).unwrap().0,
        Service {
            extends: None,
            ident: "Foo".to_string(),
            methods: vec![
                ServiceMethod {
                    oneway: false,
                    ident: "foo".to_string(),
                    ty: Ty::Void,
                    args: vec![],
                    throws: None,
                },
                ServiceMethod {
                    oneway: false,
                    ident: "bar".to_string(),
                    ty: Ty::Void,
                    args: vec![],
                    throws: None,
                },
            ],
        }
    );

    assert_eq!(
        service(b"service Foo {\nvoid foo();\nvoid bar();\n}\n", 0).unwrap().0,
        Service {
            extends: None,
            ident: "Foo".to_string(),
            methods: vec![
                ServiceMethod {
                    oneway: false,
                    ident: "foo".to_string(),
                    ty: Ty::Void,
                    args: vec![],
                    throws: None,
                },
                ServiceMethod {
                    oneway: false,
                    ident: "bar".to_string(),
                    ty: Ty::Void,
                    args: vec![],
                    throws: None,
                },
            ],
        }
    );

    assert_eq!(
        service(b"service Foo {\nvoid foo(),\nvoid bar(),\n}\n", 0).unwrap().0,
        Service {
            extends: None,
            ident: "Foo".to_string(),
            methods: vec![
                ServiceMethod {
                    oneway: false,
                    ident: "foo".to_string(),
                    ty: Ty::Void,
                    args: vec![],
                    throws: None,
                },
                ServiceMethod {
                    oneway: false,
                    ident: "bar".to_string(),
                    ty: Ty::Void,
                    args: vec![],
                    throws: None,
                },
            ],
        }
    );

    assert_eq!(
        service(b"service Foo extends some.Bar {\nvoid foo(),\n}\n", 0).unwrap().0,
        Service {
            extends: Some("some.Bar".to_string()),
            ident: "Foo".to_string(),
            methods: vec![ServiceMethod {
                oneway: false,
                ident: "foo".to_string(),
                ty: Ty::Void,
                args: vec![],
                throws: None,
            }],
        }
    );
}

#[test]
fn test_field() {
    assert_eq!(
        field(b"string foo;", 0).unwrap().0,
        StructField {
            seq: None,
            optional: false,
            ident: "foo".to_string(),
            ty: Ty::String,
            value: None,
        }
    );
    assert_eq!(
        field(b"1: string foo;", 0).unwrap().0,
        StructField {
            seq: Some(1),
            optional: false,
            ident: "foo".to_string(),
            ty: Ty::String,
            value: None,
        }
    );
    assert_eq!(
        field(b"1: i32 foo;", 0).unwrap().0,
        StructField {
            seq: Some(1),
            optional: false,
            ident: "foo".to_string(),
            ty: Ty::I32,
            value: None,
        }
    );
    assert_eq!(
        field(b"1: i32 foo = 3;", 0).unwrap().0,
        StructField {
            seq: Some(1),
            optional: false,
            ident: "foo".to_string(),
            ty: Ty::I32,
            value: Some(ConstValue::Int(3)),
        }
    );
    assert_eq!(
        field(b"2: required set<binary> foo,", 0).unwrap().0,
        StructField {
            seq: Some(2),
            optional: false,
            ident: "foo".to_string(),
            ty: Ty::Set_(Box::new(Ty::Binary)),
            value: None,
        }
    );
    assert_eq!(
        field(b"3: optional string foo;", 0).unwrap().0,
        StructField {
            seq: Some(3),
            optional: true,
            ident: "foo".to_string(),
            ty: Ty::String,
            value: None,
        }
    );
}

#[test]
fn test_field_id() {
    assert_eq!(field_id(b"1:", 0).unwrap().0, 1);
    assert_eq!(field_id(b"1 :", 0).unwrap().0, 1);
}

#[test]
fn test_field_req() {
    assert_eq!(field_req(b"required", 0).unwrap().0, false);
    assert_eq!(field_req(b"optional", 0).unwrap().0, true);
}

#[test]
fn test_function() {
    assert_eq!(
        function(b"i32 foo();", 0).unwrap().0,
        ServiceMethod {
            oneway: false,
            ident: "foo".to_string(),
            ty: Ty::I32,
            args: vec![],
            throws: None,
        }
    );

    assert_eq!(
        function(b"i32 foo(1: string bar);", 0).unwrap().0,
        ServiceMethod {
            oneway: false,
            ident: "foo".to_string(),
            ty: Ty::I32,
            args: vec![StructField {
                seq: Some(1),
                optional: false,
                ident: "bar".to_string(),
                ty: Ty::String,
                value: None,
            }],
            throws: None,
        }
    );
    assert_eq!(
        function(b"i32 foo(1: required string bar);", 0).unwrap().0,
        ServiceMethod {
            oneway: false,
            ident: "foo".to_string(),
            ty: Ty::I32,
            args: vec![StructField {
                seq: Some(1),
                optional: false,
                ident: "bar".to_string(),
                ty: Ty::String,
                value: None,
            }],
            throws: None,
        }
    );
    assert_eq!(
        function(b"void foo(1: required string bar),", 0).unwrap().0,
        ServiceMethod {
            oneway: false,
            ident: "foo".to_string(),
            ty: Ty::Void,
            args: vec![StructField {
                seq: Some(1),
                optional: false,
                ident: "bar".to_string(),
                ty: Ty::String,
                value: None,
            }],
            throws: None,
        }
    );
    assert_eq!(
        function(b"oneway void foo(1: required string bar);", 0).unwrap().0,
        ServiceMethod {
            oneway: true,
            ident: "foo".to_string(),
            ty: Ty::Void,
            args: vec![StructField {
                seq: Some(1),
                optional: false,
                ident: "bar".to_string(),
                ty: Ty::String,
                value: None,
            }],
            throws: None,
        }
    );
    assert_eq!(
        function(b"oneway i32 foo(1: required string bar);", 0).unwrap().0,
        ServiceMethod {
            oneway: true,
            ident: "foo".to_string(),
            ty: Ty::I32,
            args: vec![StructField {
                seq: Some(1),
                optional: false,
                ident: "bar".to_string(),
                ty: Ty::String,
                value: None,
            }],
            throws: None,
        }
    );
    assert_eq!(
        function(b"i32 foo(1: required string bar; optional binary baz);", 0)
            .unwrap()
            .0,
        ServiceMethod {
            oneway: false,
            ident: "foo".to_string(),
            ty: Ty::I32,
            args: vec![
                StructField {
                    seq: Some(1),
                    optional: false,
                    ident: "bar".to_string(),
                    ty: Ty::String,
                    value: None,
                },
                StructField {
                    seq: None,
                    optional: true,
                    ident: "baz".to_string(),
                    ty: Ty::Binary,
                    value: None,
                },
            ],
            throws: None,
        }
    );
    assert_eq!(
        function(b"i32 foo(1: required string bar, 2: optional binary baz);", 0)
            .unwrap()
            .0,
        ServiceMethod {
            oneway: false,
            ident: "foo".to_string(),
            ty: Ty::I32,
            args: vec![
                StructField {
                    seq: Some(1),
                    optional: false,
                    ident: "bar".to_string(),
                    ty: Ty::String,
                    value: None,
                },
                StructField {
                    seq: Some(2),
                    optional: true,
                    ident: "baz".to_string(),
                    ty: Ty::Binary,
                    value: None,
                },
            ],
            throws: None,
        }
    );
    assert_eq!(
        function(b"i32 foo(1: required string bar) throws (1: list<i32> pee);", 0)
            .unwrap()
            .0,
        ServiceMethod {
            oneway: false,
            ident: "foo".to_string(),
            ty: Ty::I32,
            args: vec![StructField {
                seq: Some(1),
                optional: false,
                ident: "bar".to_string(),
                ty: Ty::String,
                value: None,
            }],
            throws: Some(vec![StructField {
                seq: Some(1),
                optional: false,
                ident: "pee".to_string(),
                ty: Ty::List(Box::new(Ty::I32)),
                value: None,
            }]),
        }
    );

    assert_eq!(
        function(
            b"i32 foo(1: required string bar) throws (1: list<i32> pee, 2: optional set<byte> poo),",
            0
        )
        .unwrap()
        .0,
        ServiceMethod {
            oneway: false,
            ident: "foo".to_string(),
            ty: Ty::I32,
            args: vec![StructField {
                seq: Some(1),
                optional: false,
                ident: "bar".to_string(),
                ty: Ty::String,
                value: None,
            }],
            throws: Some(vec![
                StructField {
                    seq: Some(1),
                    optional: false,
                    ident: "pee".to_string(),
                    ty: Ty::List(Box::new(Ty::I32)),
                    value: None,
                },
                StructField {
                    seq: Some(2),
                    optional: true,
                    ident: "poo".to_string(),
                    ty: Ty::Set_(Box::new(Ty::Byte)),
                    value: None,
                },
            ]),
        }
    );
}

#[test]
fn test_function_type() {
    assert_eq!(function_type(b"void", 0).unwrap().0, Ty::Void);
    assert_eq!(
        function_type(b"list<i32>", 0).unwrap().0,
        Ty::List(Box::new(Ty::I32))
    );
    assert_eq!(
        function_type(b"list<void>", 0).unwrap().0,
        Ty::List(Box::new(Ty::Ident("void".to_string())))
    );
}

#[test]
fn test_throws() {
    assert_eq!(
        throws(b"throws(1: string foo)", 0).unwrap().0,
        vec![StructField {
            seq: Some(1),
            optional: false,
            ident: "foo".to_string(),
            ty: Ty::String,
            value: None,
        }]
    );
    assert_eq!(
        throws(b"throws( 1: string foo )", 0).unwrap().0,
        vec![StructField {
            seq: Some(1),
            optional: false,
            ident: "foo".to_string(),
            ty: Ty::String,
            value: None,
        }]
    );
    assert_eq!(
        throws(b"throws(1: string foo, 2: optional i32 bar)", 0).unwrap().0,
        vec![
            StructField {
                seq: Some(1),
                optional: false,
                ident: "foo".to_string(),
                ty: Ty::String,
                value: None,
            },
            StructField {
                seq: Some(2),
                optional: true,
                ident: "bar".to_string(),
                ty: Ty::I32,
                value: None,
            },
        ]
    );
}

#[test]
fn test_field_type() {
    assert_eq!(field_type(b"i8", 0).unwrap().0, Ty::I8);
    assert_eq!(
        field_type(b"list < i32 >", 0).unwrap().0,
        Ty::List(Box::new(Ty::I32))
    );
    assert_eq!(
        field_type(b"aaaa", 0).unwrap().0,
        Ty::Ident("aaaa".to_string())
    );
}

#[test]
fn test_definition_type() {
    assert_eq!(definition_type(b"i8", 0).unwrap().0, Ty::I8);
    assert_eq!(
        definition_type(b"list < i32 >", 0).unwrap().0,
        Ty::List(Box::new(Ty::I32))
    );
}

#[test]
fn test_base_type() {
    assert_eq!(base_type(b"bool", 0).unwrap().0, Ty::Bool);
    assert_eq!(base_type(b"byte", 0).unwrap().0, Ty::Byte);
    assert_eq!(base_type(b"i8", 0).unwrap().0, Ty::I8);
    assert_eq!(base_type(b"i16", 0).unwrap().0, Ty::I16);
    assert_eq!(base_type(b"i32", 0).unwrap().0, Ty::I32);
    assert_eq!(base_type(b"i64", 0).unwrap().0, Ty::I64);
    assert_eq!(base_type(b"double", 0).unwrap().0, Ty::Double);
    assert_eq!(base_type(b"string", 0).unwrap().0, Ty::String);
    assert_eq!(base_type(b"binary", 0).unwrap().0, Ty::Binary);
}

#[test]
fn test_container_type() {
    assert_eq!(
        container_type(b"map<i32, bool>", 0).unwrap().0,
        Ty::Map_(Box::new(Ty::I32), Box::new(Ty::Bool))
    );
    assert_eq!(
        container_type(b"map < i32 , string >", 0).unwrap().0,
        Ty::Map_(Box::new(Ty::I32), Box::new(Ty::String))
    );
    assert_eq!(
        container_type(b"map<map<i32, bool>, map<bool, i32>>", 0).unwrap().0,
        Ty::Map_(
            Box::new(Ty::Map_(Box::new(Ty::I32), Box::new(Ty::Bool))),
            Box::new(Ty::Map_(Box::new(Ty::Bool), Box::new(Ty::I32)))
        )
    );
    assert_eq!(
        container_type(b"set<i32>", 0).unwrap().0,
        Ty::Set_(Box::new(Ty::I32))
    );
    assert_eq!(
        container_type(b"set < i32 >", 0).unwrap().0,
        Ty::Set_(Box::new(Ty::I32))
    );
    assert_eq!(
        container_type(b"set<set<i32>>", 0).unwrap().0,
        Ty::Set_(Box::new(Ty::Set_(Box::new(Ty::I32))))
    );
    assert_eq!(
        container_type(b"list<i32>", 0).unwrap().0,
        Ty::List(Box::new(Ty::I32))
    );
    assert_eq!(
        container_type(b"list < i32 >", 0).unwrap().0,
        Ty::List(Box::new(Ty::I32))
    );
    assert_eq!(
        container_type(b"list<list<i32>>", 0).unwrap().0,
        Ty::List(Box::new(Ty::List(Box::new(Ty::I32))))
    );
}

#[test]
fn test_map_type() {
    assert_eq!(
        map_type(b"map<i32, bool>", 0).unwrap().0,
        Ty::Map_(Box::new(Ty::I32), Box::new(Ty::Bool))
    );
    assert_eq!(
        map_type(b"map < i32 , string >", 0).unwrap().0,
        Ty::Map_(Box::new(Ty::I32), Box::new(Ty::String))
    );
    assert_eq!(
        map_type(b"map<map<i32, bool>, map<bool, i32>>", 0).unwrap().0,
        Ty::Map_(
            Box::new(Ty::Map_(Box::new(Ty::I32), Box::new(Ty::Bool))),
            Box::new(Ty::Map_(Box::new(Ty::Bool), Box::new(Ty::I32)))
        )
    );
}

#[test]
fn test_set_type() {
    assert_eq!(set_type(b"set<i32>", 0).unwrap().0, Ty::Set_(Box::new(Ty::I32)));
    assert_eq!(set_type(b"set < i32 >", 0).unwrap().0, Ty::Set_(Box::new(Ty::I32)));
    assert_eq!(
        set_type(b"set<set<i32>>", 0).unwrap().0,
        Ty::Set_(Box::new(Ty::Set_(Box::new(Ty::I32))))
    );
}

#[test]
fn test_list_type() {
    assert_eq!(list_type(b"list<i32>", 0).unwrap().0, Ty::List(Box::new(Ty::I32)));
    assert_eq!(list_type(b"list < i32 >", 0).unwrap().0, Ty::List(Box::new(Ty::I32)));
    assert_eq!(
        list_type(b"list<list<i32>>", 0).unwrap().0,
        Ty::List(Box::new(Ty::List(Box::new(Ty::I32))))
    );
}

#[test]
fn test_const_value() {
    assert_eq!(const_value(b"1 ", 0).unwrap().0, ConstValue::Int(1));
    assert_eq!(const_value(b"-1 ", 0).unwrap().0, ConstValue::Int(-1));
    match const_value(b"1.0 ", 0).unwrap().0 {
        ConstValue::Double(t) => assert_eq!(t.parse::<f64>().unwrap(), 1.0),
        other => panic!("expected a double, got {:?}", other),
    }
    match const_value(b"-1.01 ", 0).unwrap().0 {
        ConstValue::Double(t) => assert_eq!(t.parse::<f64>().unwrap(), -1.01),
        other => panic!("expected a double, got {:?}", other),
    }
    assert_eq!(
        const_value(b"'aaa'", 0).unwrap().0,
        ConstValue::String("aaa".to_string())
    );
    assert_eq!(
        const_value(b"\"aaa\"", 0).unwrap().0,
        ConstValue::String("aaa".to_string())
    );
}

#[test]
fn test_int_constant() {
    assert_eq!(int_constant(b"1", 0).unwrap().0, 1);
    assert_eq!(int_constant(b"-10", 0).unwrap().0, -10);
}

#[test]
fn test_double_constant() {
    println!("{:?}", double_constant(b"-1.0 ", 0));
    assert_eq!(
        double_constant(b"1.0 ", 0).unwrap().0.parse::<f64>().unwrap(),
        1.0
    );
    assert_eq!(
        double_constant(b"-0.01 ", 0).unwrap().0.parse::<f64>().unwrap(),
        -0.01
    );
    assert_eq!(
        double_constant(b"-1.0e-2 ", 0).unwrap().0.parse::<f64>().unwrap(),
        -0.01
    );
    assert_eq!(
        double_constant(b"-1E2 ", 0).unwrap().0.parse::<f64>().unwrap(),
        -100.0
    );
}

#[test]
fn test_literal() {
    assert_eq!(literal(b"\"literal\"", 0).unwrap().0, "literal".to_string());
    assert_eq!(literal(b"'literal'", 0).unwrap().0, "literal".to_string());
}

#[test]
fn test_identifier() {
    assert_eq!(identifier(b"aiueo", 0).unwrap().0, "aiueo".to_string());
    assert_eq!(identifier(b"_aiueo", 0).unwrap().0, "_aiueo".to_string());
    assert_eq!(identifier(b"_aiu3o", 0).unwrap().0, "_aiu3o".to_string());
    assert_eq!(identifier(b"_aiu.o", 0).unwrap().0, "_aiu.o".to_string());
}

#[test]
fn test_comment() {
    assert_eq!(comment(b"# aaaaa\n", 0).unwrap().0, ());
    assert_eq!(comment(b"// aaaaa\n", 0).unwrap().0, ());
    assert_eq!(comment(b"/*aaa*/", 0).unwrap().0, ());
    assert_eq!(comment(b"/*\naaa\n*/", 0).unwrap().0, ());
    assert_eq!(comment(b"/*\n* aaa\n*/", 0).unwrap().0, ());
}
