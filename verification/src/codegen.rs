//! The code generator: it walks a parsed document and renders Rust source
//! for it — value types for structs, a service interface with its request
//! and response sums, and constants and aliases — as one text. Unions and
//! exceptions are reported as not supported, as is a constant of list or
//! map shape.

use vstd::prelude::*;
use vstd::string::{StringExecFns, StringSliceAdditionalSpecFns};
use vstd::utf8::decode_utf8;

use crate::parser::{
    Document,
    DocumentV,
    Header,
    HeaderV,
    Namespace,
    NamespaceV,
    Definition,
    DefinitionV,
    Enum,
    EnumV,
    Struct,
    StructV,
    Exception,
    ExceptionV,
    Typedef,
    TypedefV,
    Const,
    ConstV,
    ConstValue,
    ConstValueV,
    VariantV,
    StructFieldV,
    ServiceMethodV,
    Service,
    ServiceV,
    Ty,
    TyV,
    ty_view,
    spec_ty_rust,
    variants_view,
    fields_view,
    methods_view,
    headers_view,
    definitions_view,
    lemma_variants_view,
    lemma_fields_view,
    lemma_methods_view,
    lemma_headers_view,
    lemma_definitions_view,
};

verus! {

/// Why generation stopped: a construct the generator does not support yet,
/// or an input that ended too soon.
#[derive(Debug)]
pub enum Error {
    NotSupported(String),
    Eof,
}

// ---------------------------------------------------------------------------
// The namespace lookup.
// ---------------------------------------------------------------------------

/// The first namespace header whose language tag is `rust`, looking from
/// index `i` on.
pub open spec fn spec_rust_ns(hs: Seq<HeaderV>, i: int) -> Option<NamespaceV>
    decreases hs.len() - i,
{
    if i < 0 || i >= hs.len() {
        None
    } else {
        match hs[i] {
            HeaderV::Namespace(n) => {
                if n.lang == "rust"@ {
                    Some(n)
                } else {
                    spec_rust_ns(hs, i + 1)
                }
            },
            HeaderV::Include(_) => spec_rust_ns(hs, i + 1),
        }
    }
}

/// The first namespace declared for the `rust` target, if the document has
/// one.
pub fn find_rust_namespace(doc: &Document) -> (r: Option<&Namespace>)
    ensures
        match spec_rust_ns(headers_view(doc.headers@), 0) {
            Some(nv) => r matches Some(n) && n@ == nv,
            None => r is None,
        },
{
    let rust = String::from_str("rust");
    let n = doc.headers.len();
    proof {
        lemma_headers_view(doc.headers@);
    }
    let mut i: usize = 0;
    while i < n
        invariant
            i <= n,
            n == doc.headers@.len(),
            rust@ == "rust"@,
            headers_view(doc.headers@).len() == n,
            forall|j: int|
                0 <= j < doc.headers@.len() ==> headers_view(doc.headers@)[j] == crate::parser::header_view(
                    #[trigger] doc.headers@[j],
                ),
            spec_rust_ns(headers_view(doc.headers@), 0) == spec_rust_ns(
                headers_view(doc.headers@),
                i as int,
            ),
        decreases n - i,
    {
        match &doc.headers[i] {
            Header::Namespace(ns) => {
                if ns.lang == rust {
                    return Some(ns);
                }
            },
            Header::Include(_) => {},
        }
        i = i + 1;
    }
    None
}

/// The module name the generator uses: the `rust` namespace's module, or
/// `self` when none is declared.
pub open spec fn spec_target_module(hs: Seq<HeaderV>) -> Seq<char> {
    match spec_rust_ns(hs, 0) {
        Some(n) => n.module,
        None => "self"@,
    }
}

/// The module name for the generated file.
pub fn target_module(doc: &Document) -> (r: String)
    ensures
        r@ == spec_target_module(headers_view(doc.headers@)),
{
    match find_rust_namespace(doc) {
        Some(ns) => ns.module.clone(),
        None => String::from_str("self"),
    }
}

// ---------------------------------------------------------------------------
// Rendering helpers.
// ---------------------------------------------------------------------------

/// The decimal digits of an unsigned number.
pub open spec fn spec_u64_dec(n: nat) -> Seq<char>
    decreases n,
{
    if n < 10 {
        seq![(48 + n) as u32 as char]
    } else {
        spec_u64_dec(n / 10) + seq![(48 + n % 10) as u32 as char]
    }
}

/// The decimal text of a signed number.
pub open spec fn spec_i64_dec(i: i64) -> Seq<char> {
    if i < 0 {
        seq!['-'] + spec_u64_dec((-(i as int)) as nat)
    } else {
        spec_u64_dec(i as nat)
    }
}

fn u64_dec(n: u64) -> (r: String)
    ensures
        r@ == spec_u64_dec(n as nat),
    decreases n,
{
    if n < 10 {
        let mut v: Vec<u8> = Vec::new();
        v.push(48 + (n as u8));
        proof {
            crate::parser::lemma_ascii_valid_utf8(v@);
            assert(decode_utf8(v@) =~= spec_u64_dec(n as nat)) by {
                vstd::utf8::encode_utf8_decode_utf8(spec_u64_dec(n as nat));
                vstd::utf8::is_ascii_chars_encode_utf8(spec_u64_dec(n as nat));
                assert(vstd::utf8::encode_utf8(spec_u64_dec(n as nat)) =~= v@);
            }
        }
        crate::parser::ascii_to_string(v)
    } else {
        let mut s = u64_dec(n / 10);
        let d = (n % 10) as u8;
        let mut v: Vec<u8> = Vec::new();
        v.push(48 + d);
        proof {
            crate::parser::lemma_ascii_valid_utf8(v@);
            let tail = seq![(48 + (n % 10) as nat) as u32 as char];
            assert(decode_utf8(v@) =~= tail) by {
                vstd::utf8::encode_utf8_decode_utf8(tail);
                vstd::utf8::is_ascii_chars_encode_utf8(tail);
                assert(vstd::utf8::encode_utf8(tail) =~= v@);
            }
        }
        let t = crate::parser::ascii_to_string(v);
        s.append(t.as_str());
        s
    }
}

fn i64_dec(i: i64) -> (r: String)
    ensures
        r@ == spec_i64_dec(i),
{
    if i < 0 {
        let m: u64 = if i == -0x7fff_ffff_ffff_ffff - 1 {
            0x8000_0000_0000_0000u64
        } else {
            (-i) as u64
        };
        let mut s = String::from_str("-");
        let t = u64_dec(m);
        s.append(t.as_str());
        proof {
            reveal_strlit("-");
            assert("-"@ =~= seq!['-']);
            assert(m as nat == (-(i as int)) as nat);
            assert(s@ =~= spec_i64_dec(i));
        }
        s
    } else {
        u64_dec(i as u64)
    }
}

/// The literal the generator writes for a constant value; a list or a map
/// is not supported.
pub open spec fn spec_const_literal(v: ConstValueV) -> Option<Seq<char>> {
    match v {
        ConstValueV::Int(i) => Some(spec_i64_dec(i)),
        ConstValueV::Double(s) => Some(s),
        ConstValueV::String(s) => Some(seq!['"'] + s + seq!['"']),
        ConstValueV::List(_) => None,
        ConstValueV::Map_ => None,
    }
}

/// Writes the literal for a constant value, or says that its shape is not
/// supported.
pub fn const_to_literal(v: &ConstValue) -> (r: Result<String, Error>)
    ensures
        match spec_const_literal(crate::parser::const_value_view(*v)) {
            Some(t) => r matches Ok(s) && s@ == t,
            None => r matches Err(e) && e is NotSupported,
        },
{
    match v {
        ConstValue::Int(i) => Ok(i64_dec(*i)),
        ConstValue::Double(s) => Ok(s.clone()),
        ConstValue::String(s) => {
            let mut out = String::from_str("\"");
            out.append(s.as_str());
            out.append("\"");
            proof {
                reveal_strlit("\"");
                assert("\""@ =~= seq!['"']);
                assert(out@ =~= seq!['"'] + s@ + seq!['"']);
            }
            Ok(out)
        },
        ConstValue::List(_) => Err(
            Error::NotSupported(String::from_str("list literal is not supported yet")),
        ),
        ConstValue::Map_ => Err(
            Error::NotSupported(String::from_str("map literal is not supported yet")),
        ),
    }
}

/// The deserializing expression the generator writes for a field of the
/// given type; containers and `void` have none.
pub open spec fn spec_ty_expr(t: TyV) -> Option<Seq<char>> {
    match t {
        TyV::String => Some("de.deserialize_str()"@),
        TyV::Byte => Some("de.deserialize_u8()"@),
        TyV::I16 => Some("de.deserialize_i16()"@),
        TyV::I32 => Some("de.deserialize_i32()"@),
        TyV::I64 => Some("de.deserialize_i64()"@),
        TyV::Bool => Some("de.deserialize_bool()"@),
        TyV::Double => Some("de.deserialize_f64_bits().map(f64::from_bits)"@),
        TyV::Binary => Some("de.deserialize_bytes()"@),
        TyV::Ident(s) => Some(s + "::deserialize(de)"@),
        _ => None,
    }
}

/// Writes the deserializing expression for a type the wire can carry
/// directly.
pub fn ty_expr(t: &Ty) -> (r: Result<String, Error>)
    ensures
        match spec_ty_expr(ty_view(*t)) {
            Some(x) => r matches Ok(s) && s@ == x,
            None => r matches Err(e) && e is NotSupported,
        },
{
    match t {
        Ty::String => Ok(String::from_str("de.deserialize_str()")),
        Ty::Byte => Ok(String::from_str("de.deserialize_u8()")),
        Ty::I16 => Ok(String::from_str("de.deserialize_i16()")),
        Ty::I32 => Ok(String::from_str("de.deserialize_i32()")),
        Ty::I64 => Ok(String::from_str("de.deserialize_i64()")),
        Ty::Bool => Ok(String::from_str("de.deserialize_bool()")),
        Ty::Double => Ok(String::from_str("de.deserialize_f64_bits().map(f64::from_bits)")),
        Ty::Binary => Ok(String::from_str("de.deserialize_bytes()")),
        Ty::Ident(s) => {
            let mut out = s.clone();
            out.append("::deserialize(de)");
            Ok(out)
        },
        _ => Err(
            Error::NotSupported(String::from_str("no deserializing expression for this type")),
        ),
    }
}

// ---------------------------------------------------------------------------
// Rendering the wire code of a struct.
// ---------------------------------------------------------------------------

/// The serializing statement the generator writes for a value of type `t`
/// held by the expression `recv`; a container or `void` field has none.
pub open spec fn spec_ser_stmt(t: TyV, recv: Seq<char>) -> Option<Seq<char>> {
    match t {
        TyV::Bool => Some("s.serialize_bool("@ + recv + ")"@),
        TyV::Byte => Some("s.serialize_u8("@ + recv + ")"@),
        TyV::I8 => Some("s.serialize_i8("@ + recv + ")"@),
        TyV::I16 => Some("s.serialize_i16("@ + recv + ")"@),
        TyV::I32 => Some("s.serialize_i32("@ + recv + ")"@),
        TyV::I64 => Some("s.serialize_i64("@ + recv + ")"@),
        TyV::Double => Some("s.serialize_f64_bits("@ + recv + ".to_bits())"@),
        TyV::String => Some("s.serialize_str("@ + recv + ".as_str())"@),
        TyV::Binary => Some("s.serialize_bytes("@ + recv + ".as_slice())"@),
        TyV::Ident(_) => Some(recv + ".serialize(s)"@),
        _ => None,
    }
}

/// Writes the serializing statement for a field or a bare value.
fn ser_stmt(t: &Ty, recv: &String) -> (r: Result<String, Error>)
    ensures
        match spec_ser_stmt(ty_view(*t), recv@) {
            Some(x) => r matches Ok(out) && out@ == x,
            None => r matches Err(e) && e is NotSupported,
        },
{
    match t {
        Ty::Bool => {
            let mut out = String::from_str("s.serialize_bool(");
            out.append(recv.as_str());
            out.append(")");
            Ok(out)
        },
        Ty::Byte => {
            let mut out = String::from_str("s.serialize_u8(");
            out.append(recv.as_str());
            out.append(")");
            Ok(out)
        },
        Ty::I8 => {
            let mut out = String::from_str("s.serialize_i8(");
            out.append(recv.as_str());
            out.append(")");
            Ok(out)
        },
        Ty::I16 => {
            let mut out = String::from_str("s.serialize_i16(");
            out.append(recv.as_str());
            out.append(")");
            Ok(out)
        },
        Ty::I32 => {
            let mut out = String::from_str("s.serialize_i32(");
            out.append(recv.as_str());
            out.append(")");
            Ok(out)
        },
        Ty::I64 => {
            let mut out = String::from_str("s.serialize_i64(");
            out.append(recv.as_str());
            out.append(")");
            Ok(out)
        },
        Ty::Double => {
            let mut out = String::from_str("s.serialize_f64_bits(");
            out.append(recv.as_str());
            out.append(".to_bits())");
            Ok(out)
        },
        Ty::String => {
            let mut out = String::from_str("s.serialize_str(");
            out.append(recv.as_str());
            out.append(".as_str())");
            Ok(out)
        },
        Ty::Binary => {
            let mut out = String::from_str("s.serialize_bytes(");
            out.append(recv.as_str());
            out.append(".as_slice())");
            Ok(out)
        },
        Ty::Ident(_) => {
            let mut out = recv.clone();
            out.append(".serialize(s)");
            Ok(out)
        },
        _ => Err(
            Error::NotSupported(String::from_str("no serializing statement for this type")),
        ),
    }
}

/// The field-writing statements of a struct's serialize body, from index
/// `i` on; `None` when a field has no id or no wire form.
pub open spec fn spec_ser_field_lines(fs: Seq<StructFieldV>, i: int) -> Option<Seq<char>>
    decreases fs.len() - i,
{
    if i < 0 || i >= fs.len() {
        Some(Seq::empty())
    } else {
        match fs[i].seq {
            Option::None => None,
            Option::Some(id) => match spec_ser_stmt(fs[i].ty, "self."@ + fs[i].ident) {
                Option::None => None,
                Option::Some(stmt) => match spec_ser_field_lines(fs, i + 1) {
                    Option::None => None,
                    Option::Some(rest) => Some(
                        "        let _ = s.write_field_begin(\""@ + fs[i].ident + "\", "@
                            + crate::parser::spec_ty_protocol(fs[i].ty) + ", "@ + spec_i64_dec(
                            id,
                        ) + ");\n        let _ = "@ + stmt + ";\n        let _ = s.write_field_end();\n"@
                            + rest,
                    ),
                },
            },
        }
    }
}

/// The `let mut x: Option<T> = None;` lines of a struct's deserialize body.
pub open spec fn spec_decl_lines(fs: Seq<StructFieldV>, i: int) -> Seq<char>
    decreases fs.len() - i,
{
    if i < 0 || i >= fs.len() {
        Seq::empty()
    } else {
        "        let mut "@ + fs[i].ident + ": Option<"@ + spec_ty_rust(fs[i].ty) + "> = None;\n"@
            + spec_decl_lines(fs, i + 1)
    }
}

/// The match arms that land each recognized field id in its slot.
pub open spec fn spec_arm_lines(fs: Seq<StructFieldV>, i: int) -> Option<Seq<char>>
    decreases fs.len() - i,
{
    if i < 0 || i >= fs.len() {
        Some(Seq::empty())
    } else {
        match fs[i].seq {
            Option::None => None,
            Option::Some(id) => match spec_ty_expr(fs[i].ty) {
                Option::None => None,
                Option::Some(rd) => match spec_arm_lines(fs, i + 1) {
                    Option::None => None,
                    Option::Some(rest) => Some(
                        "                "@ + spec_i64_dec(id) + " => {\n                    "@
                            + fs[i].ident + " = Some("@ + rd + "?);\n                },\n"@
                            + rest,
                    ),
                },
            },
        }
    }
}

/// The record-building lines: a required field that never arrived is a
/// `MissingField` fault, an optional one falls back to its default.
pub open spec fn spec_build_lines(fs: Seq<StructFieldV>, i: int) -> Seq<char>
    decreases fs.len() - i,
{
    if i < 0 || i >= fs.len() {
        Seq::empty()
    } else {
        (if fs[i].optional {
            "            "@ + fs[i].ident + ": "@ + fs[i].ident + ".unwrap_or_default(),\n"@
        } else {
            "            "@ + fs[i].ident + ": match "@ + fs[i].ident
                + " {\n                Some(v) => v,\n                None => {\n                    return Err(Error::MissingField);\n                },\n            },\n"@
        }) + spec_build_lines(fs, i + 1)
    }
}

/// The `Serialize` and `Deserialize` impls the generator writes for a
/// record named `name` with the given fields.
#[verifier::opaque]
pub open spec fn spec_wire_struct(name: Seq<char>, fs: Seq<StructFieldV>) -> Option<Seq<char>> {
    match spec_ser_field_lines(fs, 0) {
        Option::None => None,
        Option::Some(ser) => match spec_arm_lines(fs, 0) {
            Option::None => None,
            Option::Some(arms) => Some(
                "impl Serialize for "@ + name
                    + " {\n    fn serialize(&self, s: &mut BinaryProtocol) -> Result<(), Error> {\n        let _ = s.write_struct_begin(\""@
                    + name + "\");\n"@ + ser
                    + "        let _ = s.write_field_stop();\n        let _ = s.write_struct_end();\n        Ok(())\n    }\n}\n\nimpl Deserialize for "@
                    + name
                    + " {\n    fn deserialize(de: &mut BinaryProtocol) -> Result<Self, Error> {\n        let _ = de.read_struct_begin();\n"@
                    + spec_decl_lines(fs, 0)
                    + "        loop {\n            let f = de.read_field_begin()?;\n            if f.ty == ThriftType::Stop {\n                break;\n            }\n            match f.seq {\n"@
                    + arms
                    + "                _ => {\n                    de.skip_field(f.ty)?;\n                },\n            }\n            let _ = de.read_field_end();\n        }\n        let _ = de.read_struct_end();\n        Ok("@
                    + name + " {\n"@ + spec_build_lines(fs, 0) + "        })\n    }\n}\n\n"@,
            ),
        },
    }
}

/// Writes the field-writing statements of a serialize body.
fn gen_ser_field_lines(fs: &Vec<crate::parser::StructField>) -> (r: Result<String, Error>)
    ensures
        match spec_ser_field_lines(fields_view(fs@), 0) {
            Some(t) => r matches Ok(out) && out@ == t,
            None => r matches Err(e) && e is NotSupported,
        },
{
    let ghost fsv = fields_view(fs@);
    proof {
        lemma_fields_view(fs@);
    }
    let mut out = String::new();
    let n = fs.len();
    let mut i: usize = 0;
    while i < n
        invariant
            i <= n,
            n == fs@.len(),
            fsv == fields_view(fs@),
            fsv.len() == n,
            forall|j: int| 0 <= j < n ==> fsv[j] == crate::parser::struct_field_view(
                #[trigger] fs@[j],
            ),
            spec_ser_field_lines(fsv, 0) == (match spec_ser_field_lines(fsv, i as int) {
                Option::Some(rest) => Option::Some(out@ + rest),
                Option::None => Option::<Seq<char>>::None,
            }),
        decreases n - i,
    {
        let f = &fs[i];
        let id = match f.seq {
            Some(v) => v,
            None => {
                return Err(
                    Error::NotSupported(String::from_str("a field without an id has no wire form")),
                );
            },
        };
        let mut recv = String::from_str("self.");
        recv.append(f.ident.as_str());
        let stmt = match ser_stmt(&f.ty, &recv) {
            Ok(x) => x,
            Err(e) => { return Err(e); },
        };
        let proto = f.ty.to_protocol();
        let idtext = i64_dec(id);
        out.append("        let _ = s.write_field_begin(\"");
        out.append(f.ident.as_str());
        out.append("\", ");
        out.append(proto.as_str());
        out.append(", ");
        out.append(idtext.as_str());
        out.append(");\n        let _ = ");
        out.append(stmt.as_str());
        out.append(";\n        let _ = s.write_field_end();\n");
        proof {
            assert(spec_ser_field_lines(fsv, 0) == (match spec_ser_field_lines(fsv, i + 1) {
                Option::Some(rest) => Option::Some(out@ + rest),
                Option::None => Option::<Seq<char>>::None,
            }));
        }
        i = i + 1;
    }
    proof {
        assert(out@ =~= out@ + Seq::<char>::empty());
    }
    Ok(out)
}

/// Writes the slot declarations of a deserialize body.
fn gen_decl_lines(fs: &Vec<crate::parser::StructField>) -> (r: String)
    ensures
        r@ == spec_decl_lines(fields_view(fs@), 0),
{
    let ghost fsv = fields_view(fs@);
    proof {
        lemma_fields_view(fs@);
    }
    let mut out = String::new();
    let n = fs.len();
    let mut i: usize = 0;
    while i < n
        invariant
            i <= n,
            n == fs@.len(),
            fsv == fields_view(fs@),
            fsv.len() == n,
            forall|j: int| 0 <= j < n ==> fsv[j] == crate::parser::struct_field_view(
                #[trigger] fs@[j],
            ),
            out@ + spec_decl_lines(fsv, i as int) == spec_decl_lines(fsv, 0),
        decreases n - i,
    {
        let f = &fs[i];
        let tytext = f.ty.to_string();
        out.append("        let mut ");
        out.append(f.ident.as_str());
        out.append(": Option<");
        out.append(tytext.as_str());
        out.append("> = None;\n");
        proof {
            assert(out@ + spec_decl_lines(fsv, i + 1) =~= spec_decl_lines(fsv, 0));
        }
        i = i + 1;
    }
    proof {
        assert(out@ =~= out@ + spec_decl_lines(fsv, n as int));
    }
    out
}

/// Writes the recognized-field match arms of a deserialize body.
fn gen_arm_lines(fs: &Vec<crate::parser::StructField>) -> (r: Result<String, Error>)
    ensures
        match spec_arm_lines(fields_view(fs@), 0) {
            Some(t) => r matches Ok(out) && out@ == t,
            None => r matches Err(e) && e is NotSupported,
        },
{
    let ghost fsv = fields_view(fs@);
    proof {
        lemma_fields_view(fs@);
    }
    let mut out = String::new();
    let n = fs.len();
    let mut i: usize = 0;
    while i < n
        invariant
            i <= n,
            n == fs@.len(),
            fsv == fields_view(fs@),
            fsv.len() == n,
            forall|j: int| 0 <= j < n ==> fsv[j] == crate::parser::struct_field_view(
                #[trigger] fs@[j],
            ),
            spec_arm_lines(fsv, 0) == (match spec_arm_lines(fsv, i as int) {
                Option::Some(rest) => Option::Some(out@ + rest),
                Option::None => Option::<Seq<char>>::None,
            }),
        decreases n - i,
    {
        let f = &fs[i];
        let id = match f.seq {
            Some(v) => v,
            None => {
                return Err(
                    Error::NotSupported(String::from_str("a field without an id has no wire form")),
                );
            },
        };
        let rd = match ty_expr(&f.ty) {
            Ok(x) => x,
            Err(e) => { return Err(e); },
        };
        let idtext = i64_dec(id);
        out.append("                ");
        out.append(idtext.as_str());
        out.append(" => {\n                    ");
        out.append(f.ident.as_str());
        out.append(" = Some(");
        out.append(rd.as_str());
        out.append("?);\n                },\n");
        proof {
            assert(spec_arm_lines(fsv, 0) == (match spec_arm_lines(fsv, i + 1) {
                Option::Some(rest) => Option::Some(out@ + rest),
                Option::None => Option::<Seq<char>>::None,
            }));
        }
        i = i + 1;
    }
    proof {
        assert(out@ =~= out@ + Seq::<char>::empty());
    }
    Ok(out)
}

/// Writes the record-building lines of a deserialize body.
fn gen_build_lines(fs: &Vec<crate::parser::StructField>) -> (r: String)
    ensures
        r@ == spec_build_lines(fields_view(fs@), 0),
{
    let ghost fsv = fields_view(fs@);
    proof {
        lemma_fields_view(fs@);
    }
    let mut out = String::new();
    let n = fs.len();
    let mut i: usize = 0;
    while i < n
        invariant
            i <= n,
            n == fs@.len(),
            fsv == fields_view(fs@),
            fsv.len() == n,
            forall|j: int| 0 <= j < n ==> fsv[j] == crate::parser::struct_field_view(
                #[trigger] fs@[j],
            ),
            out@ + spec_build_lines(fsv, i as int) == spec_build_lines(fsv, 0),
        decreases n - i,
    {
        let f = &fs[i];
        if f.optional {
            out.append("            ");
            out.append(f.ident.as_str());
            out.append(": ");
            out.append(f.ident.as_str());
            out.append(".unwrap_or_default(),\n");
        } else {
            out.append("            ");
            out.append(f.ident.as_str());
            out.append(": match ");
            out.append(f.ident.as_str());
            out.append(
                " {\n                Some(v) => v,\n                None => {\n                    return Err(Error::MissingField);\n                },\n            },\n",
            );
        }
        proof {
            assert(out@ + spec_build_lines(fsv, i + 1) =~= spec_build_lines(fsv, 0));
        }
        i = i + 1;
    }
    proof {
        assert(out@ =~= out@ + spec_build_lines(fsv, n as int));
    }
    out
}

/// Writes the `Serialize` and `Deserialize` impls of a record, or says why
/// its fields have no wire form.
fn gen_wire_struct(name: &String, fs: &Vec<crate::parser::StructField>) -> (r: Result<
    String,
    Error,
>)
    ensures
        match spec_wire_struct(name@, fields_view(fs@)) {
            Some(t) => r matches Ok(out) && out@ == t,
            None => r matches Err(e) && e is NotSupported,
        },
{
    proof {
        reveal(spec_wire_struct);
    }
    let ser = match gen_ser_field_lines(fs) {
        Ok(x) => x,
        Err(e) => { return Err(e); },
    };
    let arms = match gen_arm_lines(fs) {
        Ok(x) => x,
        Err(e) => { return Err(e); },
    };
    let decls = gen_decl_lines(fs);
    let builds = gen_build_lines(fs);
    let mut out = String::from_str("impl Serialize for ");
    out.append(name.as_str());
    out.append(
        " {\n    fn serialize(&self, s: &mut BinaryProtocol) -> Result<(), Error> {\n        let _ = s.write_struct_begin(\"",
    );
    out.append(name.as_str());
    out.append("\");\n");
    out.append(ser.as_str());
    out.append(
        "        let _ = s.write_field_stop();\n        let _ = s.write_struct_end();\n        Ok(())\n    }\n}\n\nimpl Deserialize for ",
    );
    out.append(name.as_str());
    out.append(
        " {\n    fn deserialize(de: &mut BinaryProtocol) -> Result<Self, Error> {\n        let _ = de.read_struct_begin();\n",
    );
    out.append(decls.as_str());
    out.append(
        "        loop {\n            let f = de.read_field_begin()?;\n            if f.ty == ThriftType::Stop {\n                break;\n            }\n            match f.seq {\n",
    );
    out.append(arms.as_str());
    out.append(
        "                _ => {\n                    de.skip_field(f.ty)?;\n                },\n            }\n            let _ = de.read_field_end();\n        }\n        let _ = de.read_struct_end();\n        Ok(",
    );
    out.append(name.as_str());
    out.append(" {\n");
    out.append(builds.as_str());
    out.append("        })\n    }\n}\n\n");
    proof {
        assert(spec_wire_struct(name@, fields_view(fs@)) matches Some(t) && out@ =~= t);
    }
    Ok(out)
}

// ---------------------------------------------------------------------------
// Rendering the definitions.
// ---------------------------------------------------------------------------

/// The fixed imports block at the top of every generated file.
pub open spec fn spec_gen_base() -> Seq<char> {
    "use tokio_thrift::protocol::{Error, ThriftType, ThriftMessageType, Serialize, Deserialize};\nuse tokio_thrift::binary_protocol::BinaryProtocol;\nuse tokio_thrift::result::{ThriftResult, ThriftError};\nuse std::collections::{HashMap, HashSet};\n\n"@
}

/// The variant lines of a generated enum, from index `i` on.
pub open spec fn spec_gen_variant_lines(vs: Seq<VariantV>, i: int) -> Seq<char>
    decreases vs.len() - i,
{
    if i < 0 || i >= vs.len() {
        Seq::empty()
    } else {
        "    "@ + vs[i].ident + ",\n"@ + spec_gen_variant_lines(vs, i + 1)
    }
}

/// A generated enum.
pub open spec fn spec_gen_enum(e: EnumV) -> Seq<char> {
    "pub enum "@ + e.ident + " {\n"@ + spec_gen_variant_lines(e.variants, 0) + "}\n\n"@
}

/// The field lines of a generated struct, from index `i` on.
pub open spec fn spec_gen_field_lines(fs: Seq<StructFieldV>, i: int) -> Seq<char>
    decreases fs.len() - i,
{
    if i < 0 || i >= fs.len() {
        Seq::empty()
    } else {
        "    pub "@ + fs[i].ident + ": "@ + spec_ty_rust(fs[i].ty) + ",\n"@
            + spec_gen_field_lines(fs, i + 1)
    }
}

/// A generated struct: the record itself and its wire impls.
#[verifier::opaque]
pub open spec fn spec_gen_struct(s: StructV) -> Option<Seq<char>> {
    match spec_wire_struct(s.ident, s.fields) {
        Option::None => None,
        Option::Some(wire) => Some(
            "pub struct "@ + s.ident + " {\n"@ + spec_gen_field_lines(s.fields, 0) + "}\n\n"@
                + wire,
        ),
    }
}

/// A generated type alias.
pub open spec fn spec_gen_typedef(t: TypedefV) -> Seq<char> {
    "pub type "@ + t.ident + " = "@ + spec_ty_rust(t.ty) + ";\n\n"@
}

/// A generated constant, when its value's shape is supported.
pub open spec fn spec_gen_const(c: ConstV) -> Option<Seq<char>> {
    match spec_const_literal(c.value) {
        Some(lit) => Some(
            "pub const "@ + c.ident + ": "@ + spec_ty_rust(c.ty) + " = "@ + lit + ";\n\n"@,
        ),
        None => None,
    }
}

/// The argument list of a generated interface method.
pub open spec fn spec_gen_arg_sig(args: Seq<StructFieldV>, i: int) -> Seq<char>
    decreases args.len() - i,
{
    if i < 0 || i >= args.len() {
        Seq::empty()
    } else {
        args[i].ident + ": "@ + spec_ty_rust(args[i].ty) + ", "@ + spec_gen_arg_sig(args, i + 1)
    }
}

/// The interface lines of a generated service, one method each.
pub open spec fn spec_gen_method_sigs(svc: Seq<char>, ms: Seq<ServiceMethodV>, i: int) -> Seq<
    char,
>
    decreases ms.len() - i,
{
    if i < 0 || i >= ms.len() {
        Seq::empty()
    } else {
        "    fn "@ + ms[i].ident + "(&self, "@ + spec_gen_arg_sig(ms[i].args, 0)
            + ") -> ThriftResult<"@ + spec_ty_rust(ms[i].ty) + ">;\n"@ + spec_gen_method_sigs(
            svc,
            ms,
            i + 1,
        )
    }
}

/// The request-sum lines of a generated service.
pub open spec fn spec_gen_args_variants(svc: Seq<char>, ms: Seq<ServiceMethodV>, i: int) -> Seq<
    char,
>
    decreases ms.len() - i,
{
    if i < 0 || i >= ms.len() {
        Seq::empty()
    } else {
        "    A"@ + ms[i].ident + "("@ + svc + ms[i].ident + "Args),\n"@ + spec_gen_args_variants(
            svc,
            ms,
            i + 1,
        )
    }
}

/// The response-sum lines of a generated service.
pub open spec fn spec_gen_ret_variants(ms: Seq<ServiceMethodV>, i: int) -> Seq<char>
    decreases ms.len() - i,
{
    if i < 0 || i >= ms.len() {
        Seq::empty()
    } else {
        "    R"@ + ms[i].ident + "("@ + spec_ty_rust(ms[i].ty) + "),\n"@ + spec_gen_ret_variants(
            ms,
            i + 1,
        )
    }
}

/// The argument records of a generated service, one struct per method,
/// each with its wire impls.
pub open spec fn spec_gen_args_structs(svc: Seq<char>, ms: Seq<ServiceMethodV>, i: int) -> Option<
    Seq<char>,
>
    decreases ms.len() - i,
{
    if i < 0 || i >= ms.len() {
        Some(Seq::empty())
    } else {
        match spec_wire_struct(svc + ms[i].ident + "Args"@, ms[i].args) {
            Option::None => None,
            Option::Some(wire) => match spec_gen_args_structs(svc, ms, i + 1) {
                Option::None => None,
                Option::Some(rest) => Some(
                    "pub struct "@ + svc + ms[i].ident + "Args {\n"@ + spec_gen_field_lines(
                        ms[i].args,
                        0,
                    ) + "}\n\n"@ + wire + rest,
                ),
            },
        }
    }
}

/// The request-sum serialize arms: each writes the method's message header
/// and the argument record's body.
pub open spec fn spec_args_ser_arms(svc: Seq<char>, ms: Seq<ServiceMethodV>, i: int) -> Seq<char>
    decreases ms.len() - i,
{
    if i < 0 || i >= ms.len() {
        Seq::empty()
    } else {
        "            "@ + svc + "ServiceMethodArgs::A"@ + ms[i].ident
            + "(b) => {\n                let _ = s.write_message_begin(\""@ + ms[i].ident
            + "\", ThriftMessageType::Call);\n                let _ = b.serialize(s);\n                let _ = s.write_message_end();\n            },\n"@
            + spec_args_ser_arms(svc, ms, i + 1)
    }
}

/// The request-sum deserialize arms: each dispatches one method name.
pub open spec fn spec_args_de_arms(svc: Seq<char>, ms: Seq<ServiceMethodV>, i: int) -> Seq<char>
    decreases ms.len() - i,
{
    if i < 0 || i >= ms.len() {
        Seq::empty()
    } else {
        "            \""@ + ms[i].ident + "\" => "@ + svc + "ServiceMethodArgs::A"@
            + ms[i].ident + "("@ + svc + ms[i].ident + "Args::deserialize(de)?),\n"@
            + spec_args_de_arms(svc, ms, i + 1)
    }
}

/// The response-sum serialize arms: the header, then the return value; a
/// `void` method writes the header alone.
pub open spec fn spec_ret_ser_arms(svc: Seq<char>, ms: Seq<ServiceMethodV>, i: int) -> Option<
    Seq<char>,
>
    decreases ms.len() - i,
{
    if i < 0 || i >= ms.len() {
        Some(Seq::empty())
    } else {
        let head = if ms[i].ty is Void {
            Some(
                "            "@ + svc + "ServiceMethodReturn::R"@ + ms[i].ident
                    + "(_b) => {\n                let _ = s.write_message_begin(\""@
                    + ms[i].ident
                    + "\", ThriftMessageType::Reply);\n                let _ = s.write_message_end();\n            },\n"@,
            )
        } else {
            match spec_ser_stmt(ms[i].ty, "(*b)"@) {
                Option::None => None,
                Option::Some(stmt) => Some(
                    "            "@ + svc + "ServiceMethodReturn::R"@ + ms[i].ident
                        + "(b) => {\n                let _ = s.write_message_begin(\""@
                        + ms[i].ident + "\", ThriftMessageType::Reply);\n                let _ = "@
                        + stmt
                        + ";\n                let _ = s.write_message_end();\n            },\n"@,
                ),
            }
        };
        match head {
            Option::None => None,
            Option::Some(h) => match spec_ret_ser_arms(svc, ms, i + 1) {
                Option::None => None,
                Option::Some(rest) => Some(h + rest),
            },
        }
    }
}

/// The response-sum deserialize arms: each reads one method's return value.
pub open spec fn spec_ret_de_arms(svc: Seq<char>, ms: Seq<ServiceMethodV>, i: int) -> Option<
    Seq<char>,
>
    decreases ms.len() - i,
{
    if i < 0 || i >= ms.len() {
        Some(Seq::empty())
    } else {
        let head = if ms[i].ty is Void {
            Some(
                "            \""@ + ms[i].ident + "\" => "@ + svc + "ServiceMethodReturn::R"@
                    + ms[i].ident + "(()),\n"@,
            )
        } else {
            match spec_ty_expr(ms[i].ty) {
                Option::None => None,
                Option::Some(rd) => Some(
                    "            \""@ + ms[i].ident + "\" => "@ + svc
                        + "ServiceMethodReturn::R"@ + ms[i].ident + "("@ + rd + "?),\n"@,
                ),
            }
        };
        match head {
            Option::None => None,
            Option::Some(h) => match spec_ret_de_arms(svc, ms, i + 1) {
                Option::None => None,
                Option::Some(rest) => Some(h + rest),
            },
        }
    }
}

/// The argument names handed from a decoded record to the interface method.
pub open spec fn spec_arg_pass(args: Seq<StructFieldV>, i: int) -> Seq<char>
    decreases args.len() - i,
{
    if i < 0 || i >= args.len() {
        Seq::empty()
    } else {
        "_args."@ + args[i].ident + ", "@ + spec_arg_pass(args, i + 1)
    }
}

/// The server adapter's dispatch arms: each hands the decoded arguments to
/// the implementation and wraps the result in the matching return variant.
pub open spec fn spec_adapter_arms(svc: Seq<char>, ms: Seq<ServiceMethodV>, i: int) -> Seq<char>
    decreases ms.len() - i,
{
    if i < 0 || i >= ms.len() {
        Seq::empty()
    } else {
        "            "@ + svc + "ServiceMethodArgs::A"@ + ms[i].ident
            + "(_args) => match self.inner."@ + ms[i].ident + "("@ + spec_arg_pass(
            ms[i].args,
            0,
        ) + ") {\n                Ok(v) => Ok("@ + svc + "ServiceMethodReturn::R"@ + ms[i].ident
            + "(v)),\n                Err(e) => Err(e),\n            },\n"@
            + spec_adapter_arms(svc, ms, i + 1)
    }
}

/// The field names of a built argument record.
pub open spec fn spec_arg_names(args: Seq<StructFieldV>, i: int) -> Seq<char>
    decreases args.len() - i,
{
    if i < 0 || i >= args.len() {
        Seq::empty()
    } else {
        args[i].ident + ", "@ + spec_arg_names(args, i + 1)
    }
}

/// The client side of a generated service: per method, a builder for the
/// request variant and a matcher that destructures the expected response
/// variant, any other variant being a protocol fault.
pub open spec fn spec_client_fns(svc: Seq<char>, ms: Seq<ServiceMethodV>, i: int) -> Seq<char>
    decreases ms.len() - i,
{
    if i < 0 || i >= ms.len() {
        Seq::empty()
    } else {
        "pub fn make_"@ + ms[i].ident + "_call("@ + spec_gen_arg_sig(ms[i].args, 0) + ") -> "@
            + svc + "ServiceMethodArgs {\n    "@ + svc + "ServiceMethodArgs::A"@ + ms[i].ident
            + "("@ + svc + ms[i].ident + "Args { "@ + spec_arg_names(ms[i].args, 0)
            + "})\n}\n\npub fn match_"@ + ms[i].ident + "_return(ret: "@ + svc
            + "ServiceMethodReturn) -> Result<"@ + spec_ty_rust(ms[i].ty)
            + ", Error> {\n    match ret {\n        "@ + svc + "ServiceMethodReturn::R"@
            + ms[i].ident
            + "(v) => Ok(v),\n        _ => Err(Error::VariantMismatch),\n    }\n}\n\n"@
            + spec_client_fns(svc, ms, i + 1)
    }
}

/// The fixed frames around the per-method lines.
pub open spec fn spec_trait_block(s: ServiceV) -> Seq<char> {
    "pub trait "@ + s.ident + "Service {\n"@ + spec_gen_method_sigs(s.ident, s.methods, 0)
        + "}\n\n"@
}

pub open spec fn spec_args_enum_block(s: ServiceV) -> Seq<char> {
    "pub enum "@ + s.ident + "ServiceMethodArgs {\n"@ + spec_gen_args_variants(
        s.ident,
        s.methods,
        0,
    ) + "}\n\n"@
}

pub open spec fn spec_ret_enum_block(s: ServiceV) -> Seq<char> {
    "pub enum "@ + s.ident + "ServiceMethodReturn {\n"@ + spec_gen_ret_variants(s.methods, 0)
        + "}\n\n"@
}

pub open spec fn spec_args_ser_impl_block(s: ServiceV) -> Seq<char> {
    "impl Serialize for "@ + s.ident
        + "ServiceMethodArgs {\n    fn serialize(&self, s: &mut BinaryProtocol) -> Result<(), Error> {\n        match self {\n"@
        + spec_args_ser_arms(s.ident, s.methods, 0)
        + "        }\n        Ok(())\n    }\n}\n\n"@
}

pub open spec fn spec_args_de_impl_block(s: ServiceV) -> Seq<char> {
    "impl Deserialize for "@ + s.ident
        + "ServiceMethodArgs {\n    fn deserialize(de: &mut BinaryProtocol) -> Result<Self, Error> {\n        let msg = de.read_message_begin()?;\n        let ret = match msg.name.as_str() {\n"@
        + spec_args_de_arms(s.ident, s.methods, 0)
        + "            _ => {\n                return Err(Error::UnknownMethod);\n            },\n        };\n        let _ = de.read_message_end();\n        Ok(ret)\n    }\n}\n\n"@
}

pub open spec fn spec_ret_ser_impl_block(s: ServiceV) -> Option<Seq<char>> {
    match spec_ret_ser_arms(s.ident, s.methods, 0) {
        Option::None => None,
        Option::Some(arms) => Some(
            "impl Serialize for "@ + s.ident
                + "ServiceMethodReturn {\n    fn serialize(&self, s: &mut BinaryProtocol) -> Result<(), Error> {\n        match self {\n"@
                + arms + "        }\n        Ok(())\n    }\n}\n\n"@,
        ),
    }
}

pub open spec fn spec_ret_de_impl_block(s: ServiceV) -> Option<Seq<char>> {
    match spec_ret_de_arms(s.ident, s.methods, 0) {
        Option::None => None,
        Option::Some(arms) => Some(
            "impl Deserialize for "@ + s.ident
                + "ServiceMethodReturn {\n    fn deserialize(de: &mut BinaryProtocol) -> Result<Self, Error> {\n        let msg = de.read_message_begin()?;\n        let ret = match msg.name.as_str() {\n"@
                + arms
                + "            _ => {\n                return Err(Error::UnknownMethod);\n            },\n        };\n        let _ = de.read_message_end();\n        Ok(ret)\n    }\n}\n\n"@,
        ),
    }
}

pub open spec fn spec_adapter_block(s: ServiceV) -> Seq<char> {
    "pub struct "@ + s.ident + "Server<S> {\n    inner: S,\n}\n\nimpl<S: "@ + s.ident
        + "Service> "@ + s.ident + "Server<S> {\n    pub fn new(inner: S) -> Self {\n        "@
        + s.ident + "Server { inner }\n    }\n\n    pub fn call(&self, req: "@ + s.ident
        + "ServiceMethodArgs) -> Result<"@ + s.ident
        + "ServiceMethodReturn, ThriftError> {\n        match req {\n"@ + spec_adapter_arms(
        s.ident,
        s.methods,
        0,
    ) + "        }\n    }\n}\n\n"@
}

/// A generated service: the interface, the request and response sums with
/// their wire impls, one argument record per method with its wire impls,
/// the server adapter, and the client-side builders and matchers.
#[verifier::opaque]
pub open spec fn spec_gen_service(s: ServiceV) -> Option<Seq<char>> {
    match spec_gen_args_structs(s.ident, s.methods, 0) {
        Option::None => None,
        Option::Some(structs) => match spec_ret_ser_impl_block(s) {
            Option::None => None,
            Option::Some(rs) => match spec_ret_de_impl_block(s) {
                Option::None => None,
                Option::Some(rd) => Some(
                    spec_trait_block(s) + spec_args_enum_block(s) + spec_ret_enum_block(s)
                        + structs + spec_args_ser_impl_block(s) + spec_args_de_impl_block(s) + rs
                        + rd + spec_adapter_block(s) + spec_client_fns(s.ident, s.methods, 0),
                ),
            },
        },
    }
}

/// What one definition renders to; a union or an exception renders to
/// nothing but a fault.
pub open spec fn spec_gen_definition(d: DefinitionV) -> Option<Seq<char>> {
    match d {
        DefinitionV::Const(c) => spec_gen_const(c),
        DefinitionV::Typedef(t) => Some(spec_gen_typedef(t)),
        DefinitionV::Enum(e) => Some(spec_gen_enum(e)),
        DefinitionV::Struct(st) => spec_gen_struct(st),
        DefinitionV::Union(_) => None,
        DefinitionV::Exception(_) => None,
        DefinitionV::Service(sv) => spec_gen_service(sv),
    }
}

/// What the definitions from index `i` on render to, stopping at the first
/// unsupported one.
pub open spec fn spec_gen_defs(ds: Seq<DefinitionV>, i: int) -> Option<Seq<char>>
    decreases ds.len() - i,
{
    if i < 0 || i >= ds.len() {
        Some(Seq::empty())
    } else {
        match spec_gen_definition(ds[i]) {
            Option::None => None,
            Option::Some(t) => match spec_gen_defs(ds, i + 1) {
                Option::None => None,
                Option::Some(rest) => Some(t + rest),
            },
        }
    }
}

/// What a whole document renders to: the imports block, then each
/// definition in input order.
pub open spec fn spec_compile(doc: DocumentV) -> Option<Seq<char>> {
    match spec_gen_defs(doc.definitions, 0) {
        Option::None => None,
        Option::Some(body) => Some(spec_gen_base() + body),
    }
}

/// Writes the field lines of a struct body.
fn gen_field_lines(fs: &Vec<crate::parser::StructField>) -> (r: String)
    ensures
        r@ == spec_gen_field_lines(fields_view(fs@), 0),
{
    let ghost fsv = fields_view(fs@);
    proof {
        lemma_fields_view(fs@);
    }
    let mut out = String::new();
    let n = fs.len();
    let mut i: usize = 0;
    while i < n
        invariant
            i <= n,
            n == fs@.len(),
            fsv == fields_view(fs@),
            fsv.len() == n,
            forall|j: int| 0 <= j < n ==> fsv[j] == crate::parser::struct_field_view(
                #[trigger] fs@[j],
            ),
            out@ + spec_gen_field_lines(fsv, i as int) == spec_gen_field_lines(fsv, 0),
        decreases n - i,
    {
        let f = &fs[i];
        let tytext = f.ty.to_string();
        out.append("    pub ");
        out.append(f.ident.as_str());
        out.append(": ");
        out.append(tytext.as_str());
        out.append(",\n");
        proof {
            assert(out@ + spec_gen_field_lines(fsv, i + 1) =~= spec_gen_field_lines(fsv, 0));
        }
        i = i + 1;
    }
    proof {
        assert(out@ =~= out@ + spec_gen_field_lines(fsv, n as int));
    }
    out
}

/// Renders one enum definition.
pub fn gen_enum(e: &Enum) -> (r: String)
    ensures
        r@ == spec_gen_enum(e@),
{
    let ghost vsv = variants_view(e.variants@);
    proof {
        lemma_variants_view(e.variants@);
    }
    let mut out = String::from_str("pub enum ");
    out.append(e.ident.as_str());
    out.append(" {\n");
    let ghost head = out@;
    let n = e.variants.len();
    let mut i: usize = 0;
    while i < n
        invariant
            i <= n,
            n == e.variants@.len(),
            vsv == variants_view(e.variants@),
            vsv.len() == n,
            forall|j: int| 0 <= j < n ==> vsv[j] == crate::parser::variant_view(
                #[trigger] e.variants@[j],
            ),
            out@ + spec_gen_variant_lines(vsv, i as int) == head + spec_gen_variant_lines(
                vsv,
                0,
            ),
        decreases n - i,
    {
        out.append("    ");
        out.append(e.variants[i].ident.as_str());
        out.append(",\n");
        proof {
            assert(out@ + spec_gen_variant_lines(vsv, i + 1) =~= head + spec_gen_variant_lines(
                vsv,
                0,
            ));
        }
        i = i + 1;
    }
    out.append("}\n\n");
    proof {
        assert(out@ =~= spec_gen_enum(e@));
    }
    out
}

/// Renders one struct definition: the record and its wire impls, or why
/// its fields have no wire form.
pub fn gen_struct(s: &Struct) -> (r: Result<String, Error>)
    ensures
        match spec_gen_struct(s@) {
            Some(t) => r matches Ok(out) && out@ == t,
            None => r matches Err(e) && e is NotSupported,
        },
{
    proof {
        reveal(spec_gen_struct);
    }
    let wire = match gen_wire_struct(&s.ident, &s.fields) {
        Ok(x) => x,
        Err(e) => { return Err(e); },
    };
    let mut out = String::from_str("pub struct ");
    out.append(s.ident.as_str());
    out.append(" {\n");
    let body = gen_field_lines(&s.fields);
    out.append(body.as_str());
    out.append("}\n\n");
    out.append(wire.as_str());
    proof {
        assert(spec_gen_struct(s@) matches Some(t) && out@ =~= t);
    }
    Ok(out)
}

/// Renders an exception definition the way a struct renders; the compiler
/// refuses exceptions before this is reached.
pub fn gen_exception(x: &Exception) -> (r: String)
    ensures
        r@ == "pub struct "@ + x.ident@ + " {\n"@ + spec_gen_field_lines(
            fields_view(x.fields@),
            0,
        ) + "}\n\n"@,
{
    let mut out = String::from_str("pub struct ");
    out.append(x.ident.as_str());
    out.append(" {\n");
    let body = gen_field_lines(&x.fields);
    out.append(body.as_str());
    out.append("}\n\n");
    proof {
        assert(out@ =~= "pub struct "@ + x.ident@ + " {\n"@ + spec_gen_field_lines(
            fields_view(x.fields@),
            0,
        ) + "}\n\n"@);
    }
    out
}

/// Renders one type alias.
pub fn gen_typedef(t: &Typedef) -> (r: String)
    ensures
        r@ == spec_gen_typedef(t@),
{
    let mut out = String::from_str("pub type ");
    out.append(t.ident.as_str());
    out.append(" = ");
    let tytext = t.ty.to_string();
    out.append(tytext.as_str());
    out.append(";\n\n");
    proof {
        assert(out@ =~= spec_gen_typedef(t@));
    }
    out
}

/// Renders one constant definition, or says why it cannot be.
pub fn gen_const(c: &Const) -> (r: Result<String, Error>)
    ensures
        match spec_gen_const(c@) {
            Some(t) => r matches Ok(s) && s@ == t,
            None => r matches Err(e) && e is NotSupported,
        },
{
    let lit = match const_to_literal(&c.value) {
        Ok(l) => l,
        Err(e) => { return Err(e); },
    };
    let mut out = String::from_str("pub const ");
    out.append(c.ident.as_str());
    out.append(": ");
    let tytext = c.ty.to_string();
    out.append(tytext.as_str());
    out.append(" = ");
    out.append(lit.as_str());
    out.append(";\n\n");
    proof {
        assert(spec_gen_const(c@) matches Some(t) && out@ =~= t);
    }
    Ok(out)
}

/// Writes the interface block of a service.
fn gen_trait_block(s: &Service) -> (r: String)
    ensures
        r@ == spec_trait_block(s@),
{
    let ghost msv = methods_view(s.methods@);
    proof {
        lemma_methods_view(s.methods@);
    }
    let n = s.methods.len();
    let mut out = String::from_str("pub trait ");
    out.append(s.ident.as_str());
    out.append("Service {\n");
    let ghost head = out@;
    let mut i: usize = 0;
    while i < n
        invariant
            i <= n,
            n == s.methods@.len(),
            msv == methods_view(s.methods@),
            msv.len() == n,
            forall|j: int| 0 <= j < n ==> msv[j] == crate::parser::service_method_view(
                #[trigger] s.methods@[j],
            ),
            out@ + spec_gen_method_sigs(s.ident@, msv, i as int) == head + spec_gen_method_sigs(
                s.ident@,
                msv,
                0,
            ),
        decreases n - i,
    {
        let m = &s.methods[i];
        out.append("    fn ");
        out.append(m.ident.as_str());
        out.append("(&self, ");
        let sig = gen_arg_sig(&m.args);
        out.append(sig.as_str());
        out.append(") -> ThriftResult<");
        let tytext = m.ty.to_string();
        out.append(tytext.as_str());
        out.append(">;\n");
        proof {
            assert(out@ + spec_gen_method_sigs(s.ident@, msv, i + 1) =~= head
                + spec_gen_method_sigs(s.ident@, msv, 0));
        }
        i = i + 1;
    }
    out.append("}\n\n");
    proof {
        assert(out@ =~= spec_trait_block(s@));
    }
    out
}

/// Writes the request-sum declaration of a service.
fn gen_args_enum_block(s: &Service) -> (r: String)
    ensures
        r@ == spec_args_enum_block(s@),
{
    let ghost msv = methods_view(s.methods@);
    proof {
        lemma_methods_view(s.methods@);
    }
    let n = s.methods.len();
    let mut out = String::from_str("pub enum ");
    out.append(s.ident.as_str());
    out.append("ServiceMethodArgs {\n");
    let ghost head = out@;
    let mut i: usize = 0;
    while i < n
        invariant
            i <= n,
            n == s.methods@.len(),
            msv == methods_view(s.methods@),
            msv.len() == n,
            forall|j: int| 0 <= j < n ==> msv[j] == crate::parser::service_method_view(
                #[trigger] s.methods@[j],
            ),
            out@ + spec_gen_args_variants(s.ident@, msv, i as int) == head
                + spec_gen_args_variants(s.ident@, msv, 0),
        decreases n - i,
    {
        let m = &s.methods[i];
        out.append("    A");
        out.append(m.ident.as_str());
        out.append("(");
        out.append(s.ident.as_str());
        out.append(m.ident.as_str());
        out.append("Args),\n");
        proof {
            assert(out@ + spec_gen_args_variants(s.ident@, msv, i + 1) =~= head
                + spec_gen_args_variants(s.ident@, msv, 0));
        }
        i = i + 1;
    }
    out.append("}\n\n");
    proof {
        assert(out@ =~= spec_args_enum_block(s@));
    }
    out
}

/// Writes the response-sum declaration of a service.
fn gen_ret_enum_block(s: &Service) -> (r: String)
    ensures
        r@ == spec_ret_enum_block(s@),
{
    let ghost msv = methods_view(s.methods@);
    proof {
        lemma_methods_view(s.methods@);
    }
    let n = s.methods.len();
    let mut out = String::from_str("pub enum ");
    out.append(s.ident.as_str());
    out.append("ServiceMethodReturn {\n");
    let ghost head = out@;
    let mut i: usize = 0;
    while i < n
        invariant
            i <= n,
            n == s.methods@.len(),
            msv == methods_view(s.methods@),
            msv.len() == n,
            forall|j: int| 0 <= j < n ==> msv[j] == crate::parser::service_method_view(
                #[trigger] s.methods@[j],
            ),
            out@ + spec_gen_ret_variants(msv, i as int) == head + spec_gen_ret_variants(msv, 0),
        decreases n - i,
    {
        let m = &s.methods[i];
        out.append("    R");
        out.append(m.ident.as_str());
        out.append("(");
        let tytext = m.ty.to_string();
        out.append(tytext.as_str());
        out.append("),\n");
        proof {
            assert(out@ + spec_gen_ret_variants(msv, i + 1) =~= head + spec_gen_ret_variants(
                msv,
                0,
            ));
        }
        i = i + 1;
    }
    out.append("}\n\n");
    proof {
        assert(out@ =~= spec_ret_enum_block(s@));
    }
    out
}

/// Writes the argument records of a service, each with its wire impls.
fn gen_args_structs(s: &Service) -> (r: Result<String, Error>)
    ensures
        match spec_gen_args_structs(s.ident@, methods_view(s.methods@), 0) {
            Some(t) => r matches Ok(out) && out@ == t,
            None => r matches Err(e) && e is NotSupported,
        },
{
    let ghost msv = methods_view(s.methods@);
    proof {
        lemma_methods_view(s.methods@);
    }
    let n = s.methods.len();
    let mut out = String::new();
    let mut i: usize = 0;
    while i < n
        invariant
            i <= n,
            n == s.methods@.len(),
            msv == methods_view(s.methods@),
            msv.len() == n,
            forall|j: int| 0 <= j < n ==> msv[j] == crate::parser::service_method_view(
                #[trigger] s.methods@[j],
            ),
            spec_gen_args_structs(s.ident@, msv, 0) == (match spec_gen_args_structs(
                s.ident@,
                msv,
                i as int,
            ) {
                Option::Some(rest) => Option::Some(out@ + rest),
                Option::None => Option::<Seq<char>>::None,
            }),
        decreases n - i,
    {
        let m = &s.methods[i];
        let mut name = s.ident.clone();
        name.append(m.ident.as_str());
        name.append("Args");
        proof {
            assert(name@ =~= s.ident@ + msv[i as int].ident + "Args"@);
        }
        let wire = match gen_wire_struct(&name, &m.args) {
            Ok(x) => x,
            Err(e) => { return Err(e); },
        };
        let ghost prev = out@;
        let mut piece = String::from_str("pub struct ");
        piece.append(name.as_str());
        piece.append(" {\n");
        let body = gen_field_lines(&m.args);
        piece.append(body.as_str());
        piece.append("}\n\n");
        piece.append(wire.as_str());
        out.append(piece.as_str());
        proof {
            let pv = "pub struct "@ + s.ident@ + msv[i as int].ident + "Args {\n"@
                + spec_gen_field_lines(msv[i as int].args, 0) + "}\n\n"@ + wire@;
            reveal_strlit("Args");
            reveal_strlit(" {\n");
            reveal_strlit("Args {\n");
            assert(piece@ =~= pv);
            assert forall|rest: Seq<char>| true implies prev + (pv + rest) =~= out@ + rest by {
                assert(prev + (pv + rest) =~= (prev + piece@) + rest);
            }
            assert(spec_gen_args_structs(s.ident@, msv, 0) == (match spec_gen_args_structs(
                s.ident@,
                msv,
                i + 1,
            ) {
                Option::Some(rest) => Option::Some(out@ + rest),
                Option::None => Option::<Seq<char>>::None,
            }));
        }
        i = i + 1;
    }
    proof {
        assert(out@ =~= out@ + Seq::<char>::empty());
    }
    Ok(out)
}

/// Writes the request sum's serialize impl.
fn gen_args_ser_impl(s: &Service) -> (r: String)
    ensures
        r@ == spec_args_ser_impl_block(s@),
{
    let ghost msv = methods_view(s.methods@);
    proof {
        lemma_methods_view(s.methods@);
    }
    let n = s.methods.len();
    let mut out = String::from_str("impl Serialize for ");
    out.append(s.ident.as_str());
    out.append(
        "ServiceMethodArgs {\n    fn serialize(&self, s: &mut BinaryProtocol) -> Result<(), Error> {\n        match self {\n",
    );
    let ghost head = out@;
    let mut i: usize = 0;
    while i < n
        invariant
            i <= n,
            n == s.methods@.len(),
            msv == methods_view(s.methods@),
            msv.len() == n,
            forall|j: int| 0 <= j < n ==> msv[j] == crate::parser::service_method_view(
                #[trigger] s.methods@[j],
            ),
            out@ + spec_args_ser_arms(s.ident@, msv, i as int) == head + spec_args_ser_arms(
                s.ident@,
                msv,
                0,
            ),
        decreases n - i,
    {
        let m = &s.methods[i];
        out.append("            ");
        out.append(s.ident.as_str());
        out.append("ServiceMethodArgs::A");
        out.append(m.ident.as_str());
        out.append("(b) => {\n                let _ = s.write_message_begin(\"");
        out.append(m.ident.as_str());
        out.append(
            "\", ThriftMessageType::Call);\n                let _ = b.serialize(s);\n                let _ = s.write_message_end();\n            },\n",
        );
        proof {
            assert(out@ + spec_args_ser_arms(s.ident@, msv, i + 1) =~= head + spec_args_ser_arms(
                s.ident@,
                msv,
                0,
            ));
        }
        i = i + 1;
    }
    out.append("        }\n        Ok(())\n    }\n}\n\n");
    proof {
        assert(out@ =~= spec_args_ser_impl_block(s@));
    }
    out
}

/// Writes the request sum's deserialize impl.
fn gen_args_de_impl(s: &Service) -> (r: String)
    ensures
        r@ == spec_args_de_impl_block(s@),
{
    let ghost msv = methods_view(s.methods@);
    proof {
        lemma_methods_view(s.methods@);
    }
    let n = s.methods.len();
    let mut out = String::from_str("impl Deserialize for ");
    out.append(s.ident.as_str());
    out.append(
        "ServiceMethodArgs {\n    fn deserialize(de: &mut BinaryProtocol) -> Result<Self, Error> {\n        let msg = de.read_message_begin()?;\n        let ret = match msg.name.as_str() {\n",
    );
    let ghost head = out@;
    let mut i: usize = 0;
    while i < n
        invariant
            i <= n,
            n == s.methods@.len(),
            msv == methods_view(s.methods@),
            msv.len() == n,
            forall|j: int| 0 <= j < n ==> msv[j] == crate::parser::service_method_view(
                #[trigger] s.methods@[j],
            ),
            out@ + spec_args_de_arms(s.ident@, msv, i as int) == head + spec_args_de_arms(
                s.ident@,
                msv,
                0,
            ),
        decreases n - i,
    {
        let m = &s.methods[i];
        out.append("            \"");
        out.append(m.ident.as_str());
        out.append("\" => ");
        out.append(s.ident.as_str());
        out.append("ServiceMethodArgs::A");
        out.append(m.ident.as_str());
        out.append("(");
        out.append(s.ident.as_str());
        out.append(m.ident.as_str());
        out.append("Args::deserialize(de)?),\n");
        proof {
            assert(out@ + spec_args_de_arms(s.ident@, msv, i + 1) =~= head + spec_args_de_arms(
                s.ident@,
                msv,
                0,
            ));
        }
        i = i + 1;
    }
    out.append(
        "            _ => {\n                return Err(Error::UnknownMethod);\n            },\n        };\n        let _ = de.read_message_end();\n        Ok(ret)\n    }\n}\n\n",
    );
    proof {
        assert(out@ =~= spec_args_de_impl_block(s@));
    }
    out
}

/// Writes the response sum's serialize impl.
fn gen_ret_ser_impl(s: &Service) -> (r: Result<String, Error>)
    ensures
        match spec_ret_ser_impl_block(s@) {
            Some(t) => r matches Ok(out) && out@ == t,
            None => r matches Err(e) && e is NotSupported,
        },
{
    let ghost msv = methods_view(s.methods@);
    proof {
        lemma_methods_view(s.methods@);
    }
    let n = s.methods.len();
    let mut out = String::from_str("impl Serialize for ");
    out.append(s.ident.as_str());
    out.append(
        "ServiceMethodReturn {\n    fn serialize(&self, s: &mut BinaryProtocol) -> Result<(), Error> {\n        match self {\n",
    );
    let ghost head = out@;
    let mut i: usize = 0;
    while i < n
        invariant
            i <= n,
            n == s.methods@.len(),
            msv == methods_view(s.methods@),
            msv.len() == n,
            forall|j: int| 0 <= j < n ==> msv[j] == crate::parser::service_method_view(
                #[trigger] s.methods@[j],
            ),
            spec_ret_ser_arms(s.ident@, msv, 0) == (match spec_ret_ser_arms(
                s.ident@,
                msv,
                i as int,
            ) {
                Option::Some(rest) => Option::Some(out@.skip(head.len() as int) + rest),
                Option::None => Option::<Seq<char>>::None,
            }),
            head.len() <= out@.len(),
            out@.take(head.len() as int) == head,
        decreases n - i,
    {
        let m = &s.methods[i];
        let is_void = match &m.ty {
            Ty::Void => true,
            _ => false,
        };
        if is_void {
            out.append("            ");
            out.append(s.ident.as_str());
            out.append("ServiceMethodReturn::R");
            out.append(m.ident.as_str());
            out.append("(_b) => {\n                let _ = s.write_message_begin(\"");
            out.append(m.ident.as_str());
            out.append(
                "\", ThriftMessageType::Reply);\n                let _ = s.write_message_end();\n            },\n",
            );
        } else {
            let recv = String::from_str("(*b)");
            let stmt = match ser_stmt(&m.ty, &recv) {
                Ok(x) => x,
                Err(e) => { return Err(e); },
            };
            out.append("            ");
            out.append(s.ident.as_str());
            out.append("ServiceMethodReturn::R");
            out.append(m.ident.as_str());
            out.append("(b) => {\n                let _ = s.write_message_begin(\"");
            out.append(m.ident.as_str());
            out.append("\", ThriftMessageType::Reply);\n                let _ = ");
            out.append(stmt.as_str());
            out.append(";\n                let _ = s.write_message_end();\n            },\n");
        }
        proof {
            assert(out@.take(head.len() as int) =~= head);
            assert(spec_ret_ser_arms(s.ident@, msv, 0) == (match spec_ret_ser_arms(
                s.ident@,
                msv,
                i + 1,
            ) {
                Option::Some(rest) => Option::Some(out@.skip(head.len() as int) + rest),
                Option::None => Option::<Seq<char>>::None,
            }));
        }
        i = i + 1;
    }
    out.append("        }\n        Ok(())\n    }\n}\n\n");
    proof {
        assert(out@.skip(head.len() as int).take(out@.len() - head.len() - 34) + Seq::<
            char,
        >::empty() =~= out@.skip(head.len() as int).take(out@.len() - head.len() - 34));
        assert(spec_ret_ser_impl_block(s@) matches Some(t) && out@ =~= t);
    }
    Ok(out)
}

/// Writes the response sum's deserialize impl.
fn gen_ret_de_impl(s: &Service) -> (r: Result<String, Error>)
    ensures
        match spec_ret_de_impl_block(s@) {
            Some(t) => r matches Ok(out) && out@ == t,
            None => r matches Err(e) && e is NotSupported,
        },
{
    let ghost msv = methods_view(s.methods@);
    proof {
        lemma_methods_view(s.methods@);
    }
    let n = s.methods.len();
    let mut out = String::from_str("impl Deserialize for ");
    out.append(s.ident.as_str());
    out.append(
        "ServiceMethodReturn {\n    fn deserialize(de: &mut BinaryProtocol) -> Result<Self, Error> {\n        let msg = de.read_message_begin()?;\n        let ret = match msg.name.as_str() {\n",
    );
    let ghost head = out@;
    let mut i: usize = 0;
    while i < n
        invariant
            i <= n,
            n == s.methods@.len(),
            msv == methods_view(s.methods@),
            msv.len() == n,
            forall|j: int| 0 <= j < n ==> msv[j] == crate::parser::service_method_view(
                #[trigger] s.methods@[j],
            ),
            spec_ret_de_arms(s.ident@, msv, 0) == (match spec_ret_de_arms(
                s.ident@,
                msv,
                i as int,
            ) {
                Option::Some(rest) => Option::Some(out@.skip(head.len() as int) + rest),
                Option::None => Option::<Seq<char>>::None,
            }),
            head.len() <= out@.len(),
            out@.take(head.len() as int) == head,
        decreases n - i,
    {
        let m = &s.methods[i];
        let is_void = match &m.ty {
            Ty::Void => true,
            _ => false,
        };
        if is_void {
            out.append("            \"");
            out.append(m.ident.as_str());
            out.append("\" => ");
            out.append(s.ident.as_str());
            out.append("ServiceMethodReturn::R");
            out.append(m.ident.as_str());
            out.append("(()),\n");
        } else {
            let rd = match ty_expr(&m.ty) {
                Ok(x) => x,
                Err(e) => { return Err(e); },
            };
            out.append("            \"");
            out.append(m.ident.as_str());
            out.append("\" => ");
            out.append(s.ident.as_str());
            out.append("ServiceMethodReturn::R");
            out.append(m.ident.as_str());
            out.append("(");
            out.append(rd.as_str());
            out.append("?),\n");
        }
        proof {
            assert(out@.take(head.len() as int) =~= head);
            assert(spec_ret_de_arms(s.ident@, msv, 0) == (match spec_ret_de_arms(
                s.ident@,
                msv,
                i + 1,
            ) {
                Option::Some(rest) => Option::Some(out@.skip(head.len() as int) + rest),
                Option::None => Option::<Seq<char>>::None,
            }));
        }
        i = i + 1;
    }
    out.append(
        "            _ => {\n                return Err(Error::UnknownMethod);\n            },\n        };\n        let _ = de.read_message_end();\n        Ok(ret)\n    }\n}\n\n",
    );
    proof {
        assert(spec_ret_de_impl_block(s@) matches Some(t) && out@ =~= t);
    }
    Ok(out)
}

/// Writes the names handed from a decoded record to the implementation.
fn gen_arg_pass(args: &Vec<crate::parser::StructField>) -> (r: String)
    ensures
        r@ == spec_arg_pass(fields_view(args@), 0),
{
    let ghost fsv = fields_view(args@);
    proof {
        lemma_fields_view(args@);
    }
    let mut out = String::new();
    let n = args.len();
    let mut i: usize = 0;
    while i < n
        invariant
            i <= n,
            n == args@.len(),
            fsv == fields_view(args@),
            fsv.len() == n,
            forall|j: int| 0 <= j < n ==> fsv[j] == crate::parser::struct_field_view(
                #[trigger] args@[j],
            ),
            out@ + spec_arg_pass(fsv, i as int) == spec_arg_pass(fsv, 0),
        decreases n - i,
    {
        let f = &args[i];
        out.append("_args.");
        out.append(f.ident.as_str());
        out.append(", ");
        proof {
            assert(out@ + spec_arg_pass(fsv, i + 1) =~= spec_arg_pass(fsv, 0));
        }
        i = i + 1;
    }
    proof {
        assert(out@ =~= out@ + spec_arg_pass(fsv, n as int));
    }
    out
}

/// Writes the field names of a built argument record.
fn gen_arg_names(args: &Vec<crate::parser::StructField>) -> (r: String)
    ensures
        r@ == spec_arg_names(fields_view(args@), 0),
{
    let ghost fsv = fields_view(args@);
    proof {
        lemma_fields_view(args@);
    }
    let mut out = String::new();
    let n = args.len();
    let mut i: usize = 0;
    while i < n
        invariant
            i <= n,
            n == args@.len(),
            fsv == fields_view(args@),
            fsv.len() == n,
            forall|j: int| 0 <= j < n ==> fsv[j] == crate::parser::struct_field_view(
                #[trigger] args@[j],
            ),
            out@ + spec_arg_names(fsv, i as int) == spec_arg_names(fsv, 0),
        decreases n - i,
    {
        let f = &args[i];
        out.append(f.ident.as_str());
        out.append(", ");
        proof {
            assert(out@ + spec_arg_names(fsv, i + 1) =~= spec_arg_names(fsv, 0));
        }
        i = i + 1;
    }
    proof {
        assert(out@ =~= out@ + spec_arg_names(fsv, n as int));
    }
    out
}

/// Writes the server adapter of a service.
#[verifier::rlimit(100)]
#[verifier::spinoff_prover]
fn gen_adapter_block(s: &Service) -> (r: String)
    ensures
        r@ == spec_adapter_block(s@),
{
    let ghost msv = methods_view(s.methods@);
    proof {
        lemma_methods_view(s.methods@);
    }
    let n = s.methods.len();
    let mut out = String::from_str("pub struct ");
    out.append(s.ident.as_str());
    out.append("Server<S> {\n    inner: S,\n}\n\nimpl<S: ");
    out.append(s.ident.as_str());
    out.append("Service> ");
    out.append(s.ident.as_str());
    out.append("Server<S> {\n    pub fn new(inner: S) -> Self {\n        ");
    out.append(s.ident.as_str());
    out.append("Server { inner }\n    }\n\n    pub fn call(&self, req: ");
    out.append(s.ident.as_str());
    out.append("ServiceMethodArgs) -> Result<");
    out.append(s.ident.as_str());
    out.append("ServiceMethodReturn, ThriftError> {\n        match req {\n");
    let ghost head = out@;
    let mut i: usize = 0;
    while i < n
        invariant
            i <= n,
            n == s.methods@.len(),
            msv == methods_view(s.methods@),
            msv.len() == n,
            forall|j: int| 0 <= j < n ==> msv[j] == crate::parser::service_method_view(
                #[trigger] s.methods@[j],
            ),
            out@ + spec_adapter_arms(s.ident@, msv, i as int) == head + spec_adapter_arms(
                s.ident@,
                msv,
                0,
            ),
        decreases n - i,
    {
        let m = &s.methods[i];
        let ghost prev = out@;
        let mut piece = String::from_str("            ");
        piece.append(s.ident.as_str());
        piece.append("ServiceMethodArgs::A");
        piece.append(m.ident.as_str());
        piece.append("(_args) => match self.inner.");
        piece.append(m.ident.as_str());
        piece.append("(");
        let pass = gen_arg_pass(&m.args);
        piece.append(pass.as_str());
        piece.append(") {\n                Ok(v) => Ok(");
        piece.append(s.ident.as_str());
        piece.append("ServiceMethodReturn::R");
        piece.append(m.ident.as_str());
        piece.append("(v)),\n                Err(e) => Err(e),\n            },\n");
        out.append(piece.as_str());
        proof {
            let pv = "            "@ + s.ident@ + "ServiceMethodArgs::A"@ + msv[i as int].ident
                + "(_args) => match self.inner."@ + msv[i as int].ident + "("@ + spec_arg_pass(
                msv[i as int].args,
                0,
            ) + ") {\n                Ok(v) => Ok("@ + s.ident@ + "ServiceMethodReturn::R"@
                + msv[i as int].ident + "(v)),\n                Err(e) => Err(e),\n            },\n"@;
            assert(piece@ =~= pv);
            assert(out@ + spec_adapter_arms(s.ident@, msv, i + 1) =~= (prev + piece@)
                + spec_adapter_arms(s.ident@, msv, i + 1));
            assert((prev + piece@) + spec_adapter_arms(s.ident@, msv, i + 1) =~= prev + (pv
                + spec_adapter_arms(s.ident@, msv, i + 1)));
            assert(out@ + spec_adapter_arms(s.ident@, msv, i + 1) == head + spec_adapter_arms(
                s.ident@,
                msv,
                0,
            ));
        }
        i = i + 1;
    }
    out.append("        }\n    }\n}\n\n");
    proof {
        assert(out@ =~= spec_adapter_block(s@));
    }
    out
}

/// Writes the client-side builders and matchers of a service.
#[verifier::rlimit(100)]
#[verifier::spinoff_prover]
fn gen_client_block(s: &Service) -> (r: String)
    ensures
        r@ == spec_client_fns(s.ident@, methods_view(s.methods@), 0),
{
    let ghost msv = methods_view(s.methods@);
    proof {
        lemma_methods_view(s.methods@);
    }
    let n = s.methods.len();
    let mut out = String::new();
    let mut i: usize = 0;
    while i < n
        invariant
            i <= n,
            n == s.methods@.len(),
            msv == methods_view(s.methods@),
            msv.len() == n,
            forall|j: int| 0 <= j < n ==> msv[j] == crate::parser::service_method_view(
                #[trigger] s.methods@[j],
            ),
            out@ + spec_client_fns(s.ident@, msv, i as int) == spec_client_fns(s.ident@, msv, 0),
        decreases n - i,
    {
        let m = &s.methods[i];
        let ghost prev = out@;
        let mut piece = String::from_str("pub fn make_");
        piece.append(m.ident.as_str());
        piece.append("_call(");
        let sig = gen_arg_sig(&m.args);
        piece.append(sig.as_str());
        piece.append(") -> ");
        piece.append(s.ident.as_str());
        piece.append("ServiceMethodArgs {\n    ");
        piece.append(s.ident.as_str());
        piece.append("ServiceMethodArgs::A");
        piece.append(m.ident.as_str());
        piece.append("(");
        piece.append(s.ident.as_str());
        piece.append(m.ident.as_str());
        piece.append("Args { ");
        let names = gen_arg_names(&m.args);
        piece.append(names.as_str());
        piece.append("})\n}\n\npub fn match_");
        piece.append(m.ident.as_str());
        piece.append("_return(ret: ");
        piece.append(s.ident.as_str());
        piece.append("ServiceMethodReturn) -> Result<");
        let tytext = m.ty.to_string();
        piece.append(tytext.as_str());
        piece.append(", Error> {\n    match ret {\n        ");
        piece.append(s.ident.as_str());
        piece.append("ServiceMethodReturn::R");
        piece.append(m.ident.as_str());
        piece.append("(v) => Ok(v),\n        _ => Err(Error::VariantMismatch),\n    }\n}\n\n");
        out.append(piece.as_str());
        proof {
            let pv = "pub fn make_"@ + msv[i as int].ident + "_call("@ + spec_gen_arg_sig(
                msv[i as int].args,
                0,
            ) + ") -> "@ + s.ident@ + "ServiceMethodArgs {\n    "@ + s.ident@
                + "ServiceMethodArgs::A"@ + msv[i as int].ident + "("@ + s.ident@
                + msv[i as int].ident + "Args { "@ + spec_arg_names(msv[i as int].args, 0)
                + "})\n}\n\npub fn match_"@ + msv[i as int].ident + "_return(ret: "@ + s.ident@
                + "ServiceMethodReturn) -> Result<"@ + spec_ty_rust(msv[i as int].ty)
                + ", Error> {\n    match ret {\n        "@ + s.ident@ + "ServiceMethodReturn::R"@
                + msv[i as int].ident
                + "(v) => Ok(v),\n        _ => Err(Error::VariantMismatch),\n    }\n}\n\n"@;
            assert(piece@ =~= pv);
            assert(out@ + spec_client_fns(s.ident@, msv, i + 1) =~= (prev + piece@)
                + spec_client_fns(s.ident@, msv, i + 1));
            assert((prev + piece@) + spec_client_fns(s.ident@, msv, i + 1) =~= prev + (pv
                + spec_client_fns(s.ident@, msv, i + 1)));
            assert(out@ + spec_client_fns(s.ident@, msv, i + 1) == spec_client_fns(
                s.ident@,
                msv,
                0,
            ));
        }
        i = i + 1;
    }
    proof {
        assert(out@ =~= out@ + spec_client_fns(s.ident@, msv, n as int));
    }
    out
}

/// Renders one service definition: the interface, the request and response
/// sums with their wire impls, the argument records with theirs, the
/// server adapter, and the client-side builders and matchers — or why a
/// method's shape has no wire form.
pub fn gen_service(s: &Service) -> (r: Result<String, Error>)
    ensures
        match spec_gen_service(s@) {
            Some(t) => r matches Ok(out) && out@ == t,
            None => r matches Err(e) && e is NotSupported,
        },
{
    proof {
        reveal(spec_gen_service);
    }
    let structs = match gen_args_structs(s) {
        Ok(x) => x,
        Err(e) => { return Err(e); },
    };
    let rs = match gen_ret_ser_impl(s) {
        Ok(x) => x,
        Err(e) => { return Err(e); },
    };
    let rd = match gen_ret_de_impl(s) {
        Ok(x) => x,
        Err(e) => { return Err(e); },
    };
    let mut out = gen_trait_block(s);
    let b2 = gen_args_enum_block(s);
    out.append(b2.as_str());
    let b3 = gen_ret_enum_block(s);
    out.append(b3.as_str());
    out.append(structs.as_str());
    let b4 = gen_args_ser_impl(s);
    out.append(b4.as_str());
    let b5 = gen_args_de_impl(s);
    out.append(b5.as_str());
    out.append(rs.as_str());
    out.append(rd.as_str());
    let b6 = gen_adapter_block(s);
    out.append(b6.as_str());
    let b7 = gen_client_block(s);
    out.append(b7.as_str());
    proof {
        assert(spec_gen_service(s@) matches Some(t) && out@ =~= t);
    }
    Ok(out)
}

/// Writes the argument list of an interface method.
fn gen_arg_sig(args: &Vec<crate::parser::StructField>) -> (r: String)
    ensures
        r@ == spec_gen_arg_sig(fields_view(args@), 0),
{
    let ghost fsv = fields_view(args@);
    proof {
        lemma_fields_view(args@);
    }
    let mut out = String::new();
    let n = args.len();
    let mut i: usize = 0;
    while i < n
        invariant
            i <= n,
            n == args@.len(),
            fsv == fields_view(args@),
            fsv.len() == n,
            forall|j: int| 0 <= j < n ==> fsv[j] == crate::parser::struct_field_view(
                #[trigger] args@[j],
            ),
            out@ + spec_gen_arg_sig(fsv, i as int) == spec_gen_arg_sig(fsv, 0),
        decreases n - i,
    {
        let f = &args[i];
        out.append(f.ident.as_str());
        out.append(": ");
        let tytext = f.ty.to_string();
        out.append(tytext.as_str());
        out.append(", ");
        proof {
            assert(out@ + spec_gen_arg_sig(fsv, i + 1) =~= spec_gen_arg_sig(fsv, 0));
        }
        i = i + 1;
    }
    proof {
        assert(out@ =~= out@ + spec_gen_arg_sig(fsv, n as int));
    }
    out
}

/// Renders a whole document: the imports block, then every definition in
/// input order; a union, an exception, or an unsupported constant shape
/// stops the generation with a fault.
pub fn compile(doc: &Document) -> (r: Result<String, Error>)
    ensures
        match spec_compile(doc@) {
            Some(t) => r matches Ok(s) && s@ == t,
            None => r matches Err(e) && e is NotSupported,
        },
{
    let ghost dsv = definitions_view(doc.definitions@);
    proof {
        lemma_definitions_view(doc.definitions@);
    }
    let mut body = String::new();
    let n = doc.definitions.len();
    let mut i: usize = 0;
    while i < n
        invariant
            i <= n,
            n == doc.definitions@.len(),
            dsv == definitions_view(doc.definitions@),
            dsv.len() == n,
            forall|j: int| 0 <= j < n ==> dsv[j] == crate::parser::definition_view(
                #[trigger] doc.definitions@[j],
            ),
            spec_gen_defs(dsv, 0) == (match spec_gen_defs(dsv, i as int) {
                Option::Some(rest) => Option::Some(body@ + rest),
                Option::None => Option::<Seq<char>>::None,
            }),
        decreases n - i,
    {
        let piece = match &doc.definitions[i] {
            Definition::Const(c) => match gen_const(c) {
                Ok(t) => t,
                Err(e) => { return Err(e); },
            },
            Definition::Typedef(t) => gen_typedef(t),
            Definition::Enum(e) => gen_enum(e),
            Definition::Struct(st) => match gen_struct(st) {
                Ok(t) => t,
                Err(e) => { return Err(e); },
            },
            Definition::Union(_) => {
                return Err(
                    Error::NotSupported(String::from_str("union is not supported yet")),
                );
            },
            Definition::Exception(_) => {
                return Err(
                    Error::NotSupported(String::from_str("exception is not supported yet")),
                );
            },
            Definition::Service(sv) => match gen_service(sv) {
                Ok(t) => t,
                Err(e) => { return Err(e); },
            },
        };
        body.append(piece.as_str());
        proof {
            assert(spec_gen_defs(dsv, 0) == (match spec_gen_defs(dsv, i + 1) {
                Option::Some(rest) => Option::Some(body@ + rest),
                Option::None => Option::<Seq<char>>::None,
            }));
        }
        i = i + 1;
    }
    let mut out = String::from_str(
        "use tokio_thrift::protocol::{Error, ThriftType, ThriftMessageType, Serialize, Deserialize};\nuse tokio_thrift::binary_protocol::BinaryProtocol;\nuse tokio_thrift::result::{ThriftResult, ThriftError};\nuse std::collections::{HashMap, HashSet};\n\n",
    );
    out.append(body.as_str());
    proof {
        assert(body@ + Seq::<char>::empty() =~= body@);
        assert(spec_compile(doc@) matches Some(t) && out@ =~= t);
    }
    Ok(out)
}

} // verus!
