use monolith_core::codegen::Call;
use monolith_core::codegen::CodeNode;
use monolith_core::codegen::ConstVar;
use monolith_core::codegen::CssCode;
use monolith_core::codegen::Fn;
use monolith_core::codegen::For;
use monolith_core::codegen::ForCond;
use monolith_core::codegen::PropAccess;
use monolith_core::codegen::ToJS;

#[test]
fn test_js_codegen() {
    let code_desc = ConstVar {
        name: "a".to_string(),
        value: Box::new(CodeNode::Num(5))
    };

    assert_eq!(code_desc.to_js(), "const a = 5");
}

#[test]
fn test_js_async_fn() {
    let code_desc = Fn {
        asyn: true,
        args: vec!["a".to_string(), "b".to_string()],
        body: vec![
            CodeNode::Call(Call {
                calle: Box::new(CodeNode::PropAccess(PropAccess {
                    name: Box::new(CodeNode::Ident("console".to_string())),
                    value: Box::new(CodeNode::Ident("log".to_string()))
                })),
                args: vec![
                    CodeNode::Str("hello".to_string())
                ]
            })
        ]
    };

    assert_eq!(code_desc.to_js(), "async (a, b) => {\nconsole.log(\"hello\")\n}");
}

#[test]
fn test_js_for() {
    let code_desc = For {
        cond: ForCond::In {
            name: "a".to_string(),
            value: Box::new(CodeNode::Ident("b".to_string()))
        },
        body: vec![
            CodeNode::Call(Call {
                calle: Box::new(CodeNode::Ident("foo".to_string())),
                args: vec![]
            })
        ]
    };

    assert_eq!(code_desc.to_js(), "for (const a in b) {\nfoo()\n}");
}

#[test]
fn test_js_prop_access() {
    let code_desc = Call {
        calle: Box::new(CodeNode::PropAccess(PropAccess {
            name: Box::new(CodeNode::Ident("document".to_string())),
            value: Box::new(CodeNode::Ident("createElement".to_string())),
        })),
        args: vec![CodeNode::Str("div".to_string())]
    };

    assert_eq!(code_desc.to_js(), r#"document.createElement("div")"#);
}

#[test]
fn numbers_are_written_in_decimal() {
    assert_eq!(CodeNode::Num(0).to_js(), "0");
    assert_eq!(CodeNode::Num(7).to_js(), "7");
    assert_eq!(CodeNode::Num(10).to_js(), "10");
    assert_eq!(CodeNode::Num(1234567890).to_js(), "1234567890");
    assert_eq!(CodeNode::Num(-42).to_js(), "-42");
    assert_eq!(CodeNode::Num(i64::MAX).to_js(), "9223372036854775807");
    assert_eq!(CodeNode::Num(i64::MIN).to_js(), "-9223372036854775808");
}

#[test]
fn the_empty_node_is_empty_text() {
    assert_eq!(CodeNode::Nothing.to_js(), "");
    assert_eq!(CssCode::Nothing.to_string(), "");
}

#[test]
fn a_plain_function_of_no_arguments() {
    let f = Fn { asyn: false, args: vec![], body: vec![] };
    assert_eq!(f.to_js(), "() => {\n}");
}

#[test]
fn a_loop_over_the_items_of_a_list() {
    let code = For {
        cond: ForCond::Of {
            name: "x".to_string(),
            value: Box::new(CodeNode::Ident("xs".to_string())),
        },
        body: vec![
            CodeNode::ConstVar(ConstVar {
                name: "y".to_string(),
                value: Box::new(CodeNode::Ident("x".to_string())),
            }),
            CodeNode::Call(Call {
                calle: Box::new(CodeNode::Ident("f".to_string())),
                args: vec![CodeNode::Ident("y".to_string()), CodeNode::Num(1), CodeNode::Str("s".to_string())],
            }),
        ],
    };
    assert_eq!(code.to_js(), "for (const x of xs) {\nconst y = x\nf(y, 1, \"s\")\n}");
}

#[test]
fn functions_nest() {
    let inner = Fn { asyn: false, args: vec!["e".to_string()], body: vec![CodeNode::Ident("e".to_string())] };
    let outer = CodeNode::Call(Call {
        calle: Box::new(CodeNode::Ident("on".to_string())),
        args: vec![CodeNode::Fn(inner)],
    });
    assert_eq!(outer.to_js(), "on((e) => {\ne\n})");
}
