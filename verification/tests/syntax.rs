use cutile_macro::ast::{
    Expr, FieldValue, GenericArgument, Path, PathArguments, PathSegment, QSelf, Stmt, Type,
};
use cutile_macro::error::{CallSite, Error, SpannedError};
use cutile_macro::grammar::judge;
use cutile_macro::items::{FnArg, GenericParam, Generics, Pat, Signature};
use cutile_macro::print::{get_ident, print_expr, print_type};
use quote::ToTokens;

fn s(t: &str) -> String {
    t.to_string()
}

fn seg(ident: &str, args: Vec<GenericArgument>) -> PathSegment {
    let arguments = if args.is_empty() {
        PathArguments::Empty
    } else {
        PathArguments::AngleBracketed { turbofish: false, args }
    };
    PathSegment { ident: s(ident), arguments }
}

fn path(segments: Vec<PathSegment>) -> Path {
    Path { qself: None, leading_colon: false, segments }
}

fn name(ident: &str) -> Type {
    Type::Path(path(vec![seg(ident, vec![])]))
}

fn arg(ident: &str) -> GenericArgument {
    GenericArgument::Type(name(ident))
}

fn var(t: &str) -> Expr {
    Expr::Path(path(vec![seg(t, vec![])]))
}

/// The tokens of a type, as they are shown.
fn tokens_of_type(source: &str) -> String {
    syn::parse_str::<syn::Type>(source).unwrap().to_token_stream().to_string()
}

fn tokens_of_expr(source: &str) -> String {
    syn::parse_str::<syn::Expr>(source).unwrap().to_token_stream().to_string()
}

#[test]
fn types_are_printed_like_tokens() {
    let array = Expr::Array(vec![
        Expr::Lit(s("128")),
        Expr::Unary { op: s("-"), operand: Box::new(Expr::Lit(s("1"))) },
    ]);
    let block = GenericArgument::Const(Expr::Block(vec![Stmt::Expr { expr: array, semi: false }]));
    let tile = |args: Vec<GenericArgument>| Type::Path(path(vec![seg("Tile", args)]));
    let cases = vec![
        (name("f32"), "f32"),
        (tile(vec![arg("E"), arg("S")]), "Tile<E, S>"),
        (tile(vec![arg("E"), block]), "Tile<E, {[128, -1]}>"),
        (tile(vec![GenericArgument::Lifetime(s("a")), arg("E")]), "Tile<'a, E>"),
        (tile(vec![GenericArgument::Const(Expr::Lit(s("3")))]), "Tile<3>"),
        (
            Type::Path(path(vec![seg("core", vec![]), seg("Tile", vec![arg("E")])])),
            "core::Tile<E>",
        ),
        (
            Type::Reference { lifetime: None, mutable: false, elem: Box::new(name("T")) },
            "&T",
        ),
        (
            Type::Reference { lifetime: Some(s("a")), mutable: true, elem: Box::new(name("T")) },
            "&'a mut T",
        ),
        (Type::Array { elem: Box::new(name("i32")), len: Box::new(var("N")) }, "[i32; N]"),
        (Type::Slice(Box::new(name("i32"))), "[i32]"),
        (Type::Tuple(vec![]), "()"),
        (Type::Tuple(vec![name("A")]), "(A,)"),
        (Type::Tuple(vec![name("A"), name("B")]), "(A, B)"),
        (
            Type::Path(Path {
                qself: Some(QSelf { ty: s("T"), position: 1 }),
                leading_colon: false,
                segments: vec![seg("Trait", vec![arg("E")]), seg("Out", vec![])],
            }),
            "<T as Trait<E>>::Out",
        ),
        (
            Type::Path(Path {
                qself: Some(QSelf { ty: s("T"), position: 0 }),
                leading_colon: false,
                segments: vec![seg("Out", vec![])],
            }),
            "<T>::Out",
        ),
        (
            Type::Path(Path { qself: None, leading_colon: true, segments: vec![seg("std", vec![])] }),
            "::std",
        ),
    ];
    for (t, source) in cases {
        assert_eq!(print_type(&t), tokens_of_type(source), "{source}");
    }
}

#[test]
fn expressions_are_printed_like_tokens() {
    let cases = vec![
        (var("x"), "x"),
        (Expr::Lit(s("1u32")), "1u32"),
        (Expr::Unary { op: s("!"), operand: Box::new(var("x")) }, "!x"),
        (Expr::Array(vec![var("x"), var("y")]), "[x, y]"),
        (
            Expr::Repeat { elem: Box::new(var("x")), len: Box::new(Expr::Lit(s("2"))) },
            "[x; 2]",
        ),
        (Expr::Block(vec![]), "{}"),
        (Expr::Block(vec![Stmt::Expr { expr: var("x"), semi: true }]), "{ x; }"),
        (
            Expr::Index {
                base: Box::new(var("x")),
                index: Box::new(Expr::Lit(s("0"))),
                position: 0,
            },
            "x[0]",
        ),
        (Expr::Path(path(vec![seg("f", vec![arg("E")])])), "f::<E>"),
        (
            Expr::Struct {
                path: path(vec![seg("P", vec![])]),
                fields: vec![FieldValue { member: s("x"), expr: var("y") }],
                rest: Some(Box::new(var("z"))),
            },
            "P { x: y, ..z }",
        ),
    ];
    for (e, source) in cases {
        assert_eq!(print_expr(&e), tokens_of_expr(source), "{source}");
    }
}

#[test]
fn signatures_parse_back() {
    let sig = Signature {
        qualifiers: s("unsafe"),
        is_unsafe: true,
        ident: s("f"),
        generics: Generics {
            params: vec![
                GenericParam::Lifetime { ident: s("a"), rest: s("") },
                GenericParam::Type { ident: s("E"), rest: s(" : Copy") },
                GenericParam::Const { ident: s("N"), ty: name("usize"), rest: s("") },
            ],
            where_clause: Some(vec![s("E : Send")]),
        },
        inputs: vec![
            FnArg::Receiver(s("& self")),
            FnArg::Typed { pat: Pat { ident: Some(s("x")), source: s("mut x") }, ty: name("E") },
        ],
        output: Some(name("E")),
    };
    let got = syn::parse_str::<syn::Signature>(&sig.print()).unwrap();
    let want = syn::parse_str::<syn::Signature>(
        "unsafe fn f<'a, E: Copy, const N: usize>(&self, mut x: E) -> E where E: Send",
    )
    .unwrap();
    assert_eq!(got, want);
}

#[test]
fn plain_names() {
    assert_eq!(get_ident(&path(vec![seg("x", vec![])])), Some(&s("x")));
    assert_eq!(get_ident(&path(vec![seg("x", vec![arg("E")])])), None);
    assert_eq!(get_ident(&path(vec![seg("a", vec![]), seg("x", vec![])])), None);
}

#[test]
fn errors_point_at_their_source() {
    let e = name("T").error("no");
    assert_eq!(e.to_string(), "Syntax error: no");
    match e {
        Error::Syn(d) => assert_eq!((d.at, d.message), (s("T"), s("no"))),
    }
    let r: Result<u8, Error> = CallSite.err("no");
    match r.err().unwrap() {
        Error::Syn(d) => assert_eq!(d.at, ""),
    }
    match s("x").error("no") {
        Error::Syn(d) => assert_eq!(d.at, "x"),
    }
    match path(vec![seg("x", vec![arg("E")])]).error("no") {
        Error::Syn(d) => assert_eq!(d.at, "x < E >"),
    }
    match var("y").error("no") {
        Error::Syn(d) => assert_eq!(d.at, "y"),
    }
}

#[test]
fn readings_are_judged() {
    assert!(judge("x", "Failed", true, None).is_ok());
    let message = |e: Error| match e {
        Error::Syn(d) => d.message,
    };
    assert_eq!(message(judge("x", "Failed", false, None).err().unwrap()), "Failed");
    assert_eq!(message(judge("x", "Failed", false, Some(s("why"))).err().unwrap()), "Failed");
    assert_eq!(message(judge("x", "Failed", true, Some(s("why"))).err().unwrap()), "Failed: why");
}

#[test]
fn nested_types_are_printed_like_tokens() {
    let inner = Type::Path(path(vec![seg(
        "Tile",
        vec![arg("f32"), GenericArgument::Const(Expr::Lit(s("2")))],
    )]));
    let reference = Type::Reference {
        lifetime: Some(s("a")),
        mutable: false,
        elem: Box::new(Type::Slice(Box::new(inner))),
    };
    let pair = Type::Tuple(vec![reference, name("usize")]);
    let outer = Type::Path(path(vec![
        seg("std", vec![]),
        seg("Vec", vec![GenericArgument::Type(pair)]),
    ]));
    assert_eq!(print_type(&outer), tokens_of_type("std::Vec<(&'a [Tile<f32, 2>], usize)>"));
    let array = Type::Array {
        elem: Box::new(Type::Reference {
            lifetime: None,
            mutable: true,
            elem: Box::new(name("T")),
        }),
        len: Box::new(Expr::Lit(s("3"))),
    };
    assert_eq!(print_type(&array), tokens_of_type("[&mut T; 3]"));
}
