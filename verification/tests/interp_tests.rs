use std::rc::Rc;

use shscript::ast::{BinaryOp, Cmd, Expr, Lit, Stmt, UnaryOp};
use shscript::interp::{Interpreter, Launcher, RunCmd};
use shscript::value::{EvalError, Func, NativeFn, Value};

struct FakeLauncher {
    capture_output: String,
    piped: Vec<Vec<String>>,
    captured: Vec<Vec<String>>,
    printed: Vec<String>,
    envs: Vec<Vec<(String, String)>>,
}

impl FakeLauncher {
    fn new(capture_output: &str) -> FakeLauncher {
        FakeLauncher {
            capture_output: capture_output.to_string(),
            piped: Vec::new(),
            captured: Vec::new(),
            printed: Vec::new(),
            envs: Vec::new(),
        }
    }
}

fn flat_words(cmd: &RunCmd, out: &mut Vec<String>) {
    match cmd {
        RunCmd::Atom(words) => {
            for w in words {
                out.push(w.clone());
            }
        }
        RunCmd::Op(l, _, r) => {
            flat_words(l, out);
            flat_words(r, out);
        }
    }
}

impl Launcher for FakeLauncher {
    fn run_pipe(&mut self, cmd: &RunCmd, env: &Vec<(String, String)>) -> Result<(), String> {
        let mut words = Vec::new();
        flat_words(cmd, &mut words);
        self.piped.push(words);
        self.envs.push(env.clone());
        Ok(())
    }

    fn run_capture(&mut self, cmd: &RunCmd, env: &Vec<(String, String)>) -> Result<String, String> {
        let mut words = Vec::new();
        flat_words(cmd, &mut words);
        self.captured.push(words);
        self.envs.push(env.clone());
        Ok(self.capture_output.clone())
    }

    fn print_line(&mut self, line: &str) {
        self.printed.push(line.to_string());
    }
}

fn num(n: i64) -> Expr {
    Expr::Literal(Lit::Num(n))
}

fn s(text: &str) -> Expr {
    Expr::Literal(Lit::String(text.to_string()))
}

fn boolean(b: bool) -> Expr {
    Expr::Literal(Lit::Bool(b))
}

fn bin(l: Expr, op: BinaryOp, r: Expr) -> Expr {
    Expr::Binary(Box::new(l), op, Box::new(r))
}

fn get(name: &str) -> Expr {
    Expr::Get(name.to_string())
}

fn let_stmt(name: &str, init: Expr) -> Stmt {
    Stmt::Let { name: name.to_string(), init: Some(init), is_exp: false }
}

fn print_stmt(arg: Expr) -> Stmt {
    Stmt::Expr(Expr::Call { func: Box::new(get("print")), args: vec![arg] })
}

fn run_collected(prog: Vec<Stmt>) -> (Result<(), EvalError>, String) {
    let mut it = Interpreter::new(Vec::new());
    it.do_collect();
    let mut launcher = FakeLauncher::new("");
    let r = it.run(&prog, &mut launcher);
    (r, it.collector.clone().unwrap_or_default())
}

#[test]
fn range_exclusive_iterates_half_open() {
    let range = Expr::Range { l: Box::new(num(1)), r: Box::new(num(4)), inclusive: false };
    let body = Stmt::Block(vec![print_stmt(get("i"))]);
    let prog = vec![Stmt::For {
        lvar: "i".to_string(),
        rvar: None,
        iterated: range,
        each_do: Box::new(body),
    }];
    let (r, out) = run_collected(prog);
    assert_eq!(r, Ok(()));
    assert_eq!(out, "1\n2\n3\n");
}

#[test]
fn range_inclusive_folds_upper_bound() {
    let range = Expr::Range { l: Box::new(num(1)), r: Box::new(num(4)), inclusive: true };
    let body = Stmt::Block(vec![print_stmt(get("i"))]);
    let prog = vec![Stmt::For {
        lvar: "i".to_string(),
        rvar: None,
        iterated: range,
        each_do: Box::new(body),
    }];
    let (r, out) = run_collected(prog);
    assert_eq!(r, Ok(()));
    assert_eq!(out, "1\n2\n3\n4\n");
}

#[test]
fn range_empty_when_bounds_equal() {
    let range = Expr::Range { l: Box::new(num(3)), r: Box::new(num(3)), inclusive: false };
    let body = Stmt::Block(vec![print_stmt(get("i"))]);
    let prog = vec![Stmt::For {
        lvar: "i".to_string(),
        rvar: None,
        iterated: range,
        each_do: Box::new(body),
    }];
    let (r, out) = run_collected(prog);
    assert_eq!(r, Ok(()));
    assert_eq!(out, "");
}

#[test]
fn vec_set_then_get_observes_new_value() {
    let prog = vec![
        let_stmt("v", Expr::VecLit(vec![num(1), num(2), num(3)])),
        Stmt::Expr(Expr::SetField {
            base: Box::new(get("v")),
            index: Box::new(num(1)),
            value: Box::new(num(42)),
        }),
        print_stmt(Expr::GetField { base: Box::new(get("v")), index: Box::new(num(1)) }),
    ];
    let (r, out) = run_collected(prog);
    assert_eq!(r, Ok(()));
    assert_eq!(out, "42\n");
}

#[test]
fn vec_mutation_visible_through_alias() {
    let prog = vec![
        let_stmt("v", Expr::VecLit(vec![num(1), num(2)])),
        let_stmt("w", get("v")),
        Stmt::Expr(Expr::SetField {
            base: Box::new(get("w")),
            index: Box::new(num(0)),
            value: Box::new(num(9)),
        }),
        print_stmt(Expr::GetField { base: Box::new(get("v")), index: Box::new(num(0)) }),
    ];
    let (r, out) = run_collected(prog);
    assert_eq!(r, Ok(()));
    assert_eq!(out, "9\n");
}

#[test]
fn dict_missing_key_fails() {
    let prog = vec![
        let_stmt("d", Expr::DictLit(vec![("a".to_string(), num(1))])),
        print_stmt(Expr::GetField { base: Box::new(get("d")), index: Box::new(s("nope")) }),
    ];
    let (r, _) = run_collected(prog);
    assert_eq!(r, Err(EvalError::MissingKey));
}

#[test]
fn dict_set_then_get_observes_value() {
    let prog = vec![
        let_stmt("d", Expr::DictLit(vec![])),
        Stmt::Expr(Expr::SetField {
            base: Box::new(get("d")),
            index: Box::new(s("k")),
            value: Box::new(num(5)),
        }),
        print_stmt(Expr::GetField { base: Box::new(get("d")), index: Box::new(s("k")) }),
    ];
    let (r, out) = run_collected(prog);
    assert_eq!(r, Ok(()));
    assert_eq!(out, "5\n");
}

#[test]
fn and_short_circuit_skips_side_effect() {
    let prog = vec![Stmt::Expr(bin(
        boolean(false),
        BinaryOp::And,
        Expr::Call { func: Box::new(get("print")), args: vec![s("never")] },
    ))];
    let (r, out) = run_collected(prog);
    assert_eq!(r, Ok(()));
    assert_eq!(out, "");
}

#[test]
fn or_short_circuit_skips_side_effect() {
    let prog = vec![Stmt::Expr(bin(
        boolean(true),
        BinaryOp::Or,
        Expr::Call { func: Box::new(get("print")), args: vec![s("never")] },
    ))];
    let (r, out) = run_collected(prog);
    assert_eq!(r, Ok(()));
    assert_eq!(out, "");
}

#[test]
fn and_evaluates_right_when_left_truthy() {
    let prog = vec![Stmt::Expr(bin(
        boolean(true),
        BinaryOp::And,
        Expr::Call { func: Box::new(get("print")), args: vec![s("ran")] },
    ))];
    let (r, out) = run_collected(prog);
    assert_eq!(r, Ok(()));
    assert_eq!(out, "ran\n");
}

#[test]
fn and_or_return_deciding_value_not_bool() {
    let prog = vec![
        print_stmt(bin(num(0), BinaryOp::And, s("right"))),
        print_stmt(bin(Expr::Literal(Lit::Nil), BinaryOp::Or, s("fallback"))),
    ];
    let (r, out) = run_collected(prog);
    assert_eq!(r, Ok(()));
    // zero is truthy, so && yields the right side; nil is falsy, so || falls back
    assert_eq!(out, "right\nfallback\n");
}

#[test]
fn interpolation_concatenates_left_to_right() {
    let interp = Expr::Interp {
        strings: vec!["a".to_string(), "b".to_string()],
        exprs: vec![bin(num(1), BinaryOp::Sum, num(1))],
    };
    let (r, out) = run_collected(vec![print_stmt(interp)]);
    assert_eq!(r, Ok(()));
    assert_eq!(out, "a2b\n");
}

#[test]
fn interpolation_keeps_empty_fragments() {
    let interp = Expr::Interp {
        strings: vec!["".to_string(), "".to_string(), "".to_string()],
        exprs: vec![num(1), num(2)],
    };
    let (r, out) = run_collected(vec![print_stmt(interp)]);
    assert_eq!(r, Ok(()));
    assert_eq!(out, "12\n");
}

#[test]
fn closure_retains_defining_scope_after_pop() {
    let lambda = Expr::Lambda(shscript::ast::FuncDef {
        name: None,
        params: Rc::new(Vec::new()),
        body: Rc::new(Stmt::Block(vec![print_stmt(get("x"))])),
    });
    let prog = vec![
        let_stmt("f", Expr::Literal(Lit::Nil)),
        Stmt::Block(vec![
            let_stmt("x", num(42)),
            Stmt::Expr(Expr::Assign("f".to_string(), Box::new(lambda))),
            // rebinding after capture is not observed: capture is a snapshot
            Stmt::Expr(Expr::Assign("x".to_string(), Box::new(num(99)))),
        ]),
        Stmt::Expr(Expr::Call { func: Box::new(get("f")), args: vec![] }),
    ];
    let (r, out) = run_collected(prog);
    assert_eq!(r, Ok(()));
    assert_eq!(out, "42\n");
}

#[test]
fn closure_sees_shared_container_mutation() {
    let lambda = Expr::Lambda(shscript::ast::FuncDef {
        name: None,
        params: Rc::new(Vec::new()),
        body: Rc::new(Stmt::Block(vec![print_stmt(Expr::GetField {
            base: Box::new(get("v")),
            index: Box::new(num(0)),
        })])),
    });
    let prog = vec![
        let_stmt("f", Expr::Literal(Lit::Nil)),
        let_stmt("v", Expr::VecLit(vec![num(1)])),
        Stmt::Expr(Expr::Assign("f".to_string(), Box::new(lambda))),
        Stmt::Expr(Expr::SetField {
            base: Box::new(get("v")),
            index: Box::new(num(0)),
            value: Box::new(num(7)),
        }),
        Stmt::Expr(Expr::Call { func: Box::new(get("f")), args: vec![] }),
    ];
    let (r, out) = run_collected(prog);
    assert_eq!(r, Ok(()));
    assert_eq!(out, "7\n");
}

#[test]
fn anonymous_funcs_never_equal() {
    let lambda = |_: ()| Expr::Lambda(shscript::ast::FuncDef {
        name: None,
        params: Rc::new(Vec::new()),
        body: Rc::new(Stmt::Block(vec![])),
    });
    let prog = vec![
        let_stmt("a", lambda(())),
        let_stmt("b", lambda(())),
        print_stmt(bin(get("a"), BinaryOp::Equal, get("b"))),
        print_stmt(bin(get("a"), BinaryOp::Equal, get("a"))),
    ];
    let (r, out) = run_collected(prog);
    assert_eq!(r, Ok(()));
    assert_eq!(out, "false\nfalse\n");
}

#[test]
fn native_funcs_never_equal() {
    let prog = vec![print_stmt(bin(get("print"), BinaryOp::Equal, get("print")))];
    let (r, out) = run_collected(prog);
    assert_eq!(r, Ok(()));
    assert_eq!(out, "false\n");
}

#[test]
fn named_funcs_equal_by_name() {
    let named = |n: &str| Expr::Lambda(shscript::ast::FuncDef {
        name: Some(n.to_string()),
        params: Rc::new(Vec::new()),
        body: Rc::new(Stmt::Block(vec![])),
    });
    let prog = vec![
        let_stmt("a", named("f")),
        let_stmt("b", named("f")),
        let_stmt("c", named("g")),
        print_stmt(bin(get("a"), BinaryOp::Equal, get("b"))),
        print_stmt(bin(get("a"), BinaryOp::Equal, get("c"))),
    ];
    let (r, out) = run_collected(prog);
    assert_eq!(r, Ok(()));
    assert_eq!(out, "true\nfalse\n");
}

#[test]
fn user_func_call_returns_value_and_checks_arity() {
    let lambda = Expr::Lambda(shscript::ast::FuncDef {
        name: None,
        params: Rc::new(vec!["a".to_string(), "b".to_string()]),
        body: Rc::new(Stmt::Return(Some(bin(get("a"), BinaryOp::Sum, get("b"))))),
    });
    let prog = vec![
        let_stmt("add2", lambda),
        print_stmt(Expr::Call { func: Box::new(get("add2")), args: vec![num(2), num(3)] }),
    ];
    let (r, out) = run_collected(prog);
    assert_eq!(r, Ok(()));
    assert_eq!(out, "5\n");

    let lambda = Expr::Lambda(shscript::ast::FuncDef {
        name: None,
        params: Rc::new(vec!["a".to_string()]),
        body: Rc::new(Stmt::Block(vec![])),
    });
    let prog = vec![
        let_stmt("f", lambda),
        Stmt::Expr(Expr::Call { func: Box::new(get("f")), args: vec![] }),
    ];
    let (r, _) = run_collected(prog);
    assert_eq!(r, Err(EvalError::CallArityError));
}

#[test]
fn falling_off_function_end_yields_nil() {
    let lambda = Expr::Lambda(shscript::ast::FuncDef {
        name: None,
        params: Rc::new(Vec::new()),
        body: Rc::new(Stmt::Block(vec![])),
    });
    let prog = vec![
        let_stmt("f", lambda),
        print_stmt(Expr::Call { func: Box::new(get("f")), args: vec![] }),
    ];
    let (r, out) = run_collected(prog);
    assert_eq!(r, Ok(()));
    assert_eq!(out, "nil\n");
}

#[test]
fn while_and_break_continue() {
    // x = 0; while x < 10 { x = x + 1; if x == 3 { continue }; if x > 4 { break }; print(x) }
    let body = Stmt::Block(vec![
        Stmt::Expr(Expr::Assign("x".to_string(), Box::new(bin(get("x"), BinaryOp::Sum, num(1))))),
        Stmt::If {
            cond: bin(get("x"), BinaryOp::Equal, num(3)),
            then_do: Box::new(Stmt::Continue),
            else_do: None,
        },
        Stmt::If {
            cond: bin(get("x"), BinaryOp::Great, num(4)),
            then_do: Box::new(Stmt::Break),
            else_do: None,
        },
        print_stmt(get("x")),
    ]);
    let prog = vec![
        let_stmt("x", num(0)),
        Stmt::While { cond: bin(get("x"), BinaryOp::Less, num(10)), then_do: Box::new(body) },
    ];
    let (r, out) = run_collected(prog);
    assert_eq!(r, Ok(()));
    assert_eq!(out, "1\n2\n4\n");
}

#[test]
fn escape_at_top_level_is_fatal() {
    let (r, _) = run_collected(vec![Stmt::Break]);
    assert_eq!(r, Err(EvalError::EscapeAtTopLevel));
}

#[test]
fn error_variants_surface() {
    let (r, _) = run_collected(vec![Stmt::Expr(get("nope"))]);
    assert_eq!(r, Err(EvalError::UnboundName));

    let (r, _) = run_collected(vec![Stmt::Expr(bin(num(1), BinaryOp::Sum, s("a")))]);
    assert_eq!(r, Err(EvalError::TypeMismatch));

    let (r, _) = run_collected(vec![
        let_stmt("v", Expr::VecLit(vec![num(1)])),
        Stmt::Expr(Expr::GetField { base: Box::new(get("v")), index: Box::new(s("a")) }),
    ]);
    assert_eq!(r, Err(EvalError::BadIndex));

    let (r, _) = run_collected(vec![
        let_stmt("v", Expr::VecLit(vec![num(1)])),
        Stmt::Expr(Expr::GetField { base: Box::new(get("v")), index: Box::new(num(10)) }),
    ]);
    assert_eq!(r, Err(EvalError::IndexOutOfBounds));

    let (r, _) = run_collected(vec![Stmt::Expr(Expr::SetField {
        base: Box::new(num(1)),
        index: Box::new(num(0)),
        value: Box::new(num(2)),
    })]);
    assert_eq!(r, Err(EvalError::BadAssignTarget));

    let (r, _) = run_collected(vec![Stmt::Expr(Expr::Range {
        l: Box::new(s("a")),
        r: Box::new(num(1)),
        inclusive: false,
    })]);
    assert_eq!(r, Err(EvalError::RangeTypeError));

    let (r, _) = run_collected(vec![Stmt::Expr(Expr::Call {
        func: Box::new(num(1)),
        args: vec![],
    })]);
    assert_eq!(r, Err(EvalError::NotCallable));
}

#[test]
fn vec_no_auto_growth_on_assignment() {
    let (r, _) = run_collected(vec![
        let_stmt("v", Expr::VecLit(vec![num(1)])),
        Stmt::Expr(Expr::SetField {
            base: Box::new(get("v")),
            index: Box::new(num(5)),
            value: Box::new(num(2)),
        }),
    ]);
    assert_eq!(r, Err(EvalError::IndexOutOfBounds));
}

#[test]
fn arithmetic_and_comparisons() {
    let prog = vec![
        print_stmt(bin(num(7), BinaryOp::Sub, num(2))),
        print_stmt(bin(num(6), BinaryOp::Mul, num(7))),
        print_stmt(bin(num(7), BinaryOp::Div, num(2))),
        print_stmt(bin(num(7), BinaryOp::Mod, num(4))),
        print_stmt(bin(num(2), BinaryOp::Pow, num(10))),
        print_stmt(bin(num(1), BinaryOp::Less, num(2))),
        print_stmt(bin(num(1), BinaryOp::Great, num(2))),
        print_stmt(Expr::Unary(UnaryOp::Neg, Box::new(num(5)))),
        print_stmt(Expr::Unary(UnaryOp::Not, Box::new(boolean(false)))),
    ];
    let (r, out) = run_collected(prog);
    assert_eq!(r, Ok(()));
    assert_eq!(out, "5\n42\n3\n3\n1024\ntrue\nfalse\n-5\ntrue\n");
}

#[test]
fn string_sum_concatenates() {
    let prog = vec![print_stmt(bin(s("foo"), BinaryOp::Sum, s("bar")))];
    let (r, out) = run_collected(prog);
    assert_eq!(r, Ok(()));
    assert_eq!(out, "foobar\n");
}

#[test]
fn display_quotes_strings_inside_containers() {
    let prog = vec![
        print_stmt(Expr::VecLit(vec![s("a"), num(1)])),
        print_stmt(Expr::DictLit(vec![("k".to_string(), s("v"))])),
        print_stmt(Expr::Range { l: Box::new(num(1)), r: Box::new(num(3)), inclusive: false }),
        print_stmt(Expr::Literal(Lit::Nil)),
    ];
    let (r, out) = run_collected(prog);
    assert_eq!(r, Ok(()));
    assert_eq!(out, "['a', 1]\n{k: 'v'}\n1..3\nnil\n");
}

#[test]
fn truthiness_of_zero_and_empty() {
    let prog = vec![
        print_stmt(Expr::Unary(UnaryOp::Not, Box::new(num(0)))),
        print_stmt(Expr::Unary(UnaryOp::Not, Box::new(s("")))),
        print_stmt(Expr::Unary(UnaryOp::Not, Box::new(Expr::Literal(Lit::Nil)))),
        print_stmt(Expr::Unary(UnaryOp::Not, Box::new(boolean(false)))),
    ];
    let (r, out) = run_collected(prog);
    assert_eq!(r, Ok(()));
    assert_eq!(out, "false\nfalse\ntrue\ntrue\n");
}

#[test]
fn structural_equality_of_containers() {
    let prog = vec![
        let_stmt("a", Expr::VecLit(vec![num(1), s("x")])),
        let_stmt("b", Expr::VecLit(vec![num(1), s("x")])),
        print_stmt(bin(get("a"), BinaryOp::Equal, get("b"))),
        let_stmt("c", Expr::DictLit(vec![("k".to_string(), num(1))])),
        let_stmt("d", Expr::DictLit(vec![("k".to_string(), num(1))])),
        print_stmt(bin(get("c"), BinaryOp::Equal, get("d"))),
        print_stmt(bin(get("a"), BinaryOp::Equal, get("c"))),
    ];
    let (r, out) = run_collected(prog);
    assert_eq!(r, Ok(()));
    assert_eq!(out, "true\ntrue\nfalse\n");
}

#[test]
fn for_over_vec_binds_index_and_element() {
    let body = Stmt::Block(vec![print_stmt(Expr::Interp {
        strings: vec!["".to_string(), ":".to_string(), "".to_string()],
        exprs: vec![get("i"), get("e")],
    })]);
    let prog = vec![
        let_stmt("v", Expr::VecLit(vec![s("a"), s("b")])),
        Stmt::For {
            lvar: "i".to_string(),
            rvar: Some("e".to_string()),
            iterated: get("v"),
            each_do: Box::new(body),
        },
    ];
    let (r, out) = run_collected(prog);
    assert_eq!(r, Ok(()));
    assert_eq!(out, "0:a\n1:b\n");
}

#[test]
fn for_over_dict_binds_key_and_value() {
    let body = Stmt::Block(vec![print_stmt(Expr::Interp {
        strings: vec!["".to_string(), "=".to_string(), "".to_string()],
        exprs: vec![get("k"), get("v")],
    })]);
    let prog = vec![
        let_stmt("d", Expr::DictLit(vec![
            ("a".to_string(), num(1)),
            ("b".to_string(), num(2)),
        ])),
        Stmt::For {
            lvar: "k".to_string(),
            rvar: Some("v".to_string()),
            iterated: get("d"),
            each_do: Box::new(body),
        },
    ];
    let (r, out) = run_collected(prog);
    assert_eq!(r, Ok(()));
    assert_eq!(out, "a=1\nb=2\n");
}

#[test]
fn block_scoping_shadows_and_unwinds() {
    let prog = vec![
        let_stmt("x", num(1)),
        Stmt::Block(vec![let_stmt("x", num(2)), print_stmt(get("x"))]),
        print_stmt(get("x")),
    ];
    let (r, out) = run_collected(prog);
    assert_eq!(r, Ok(()));
    assert_eq!(out, "2\n1\n");
}

#[test]
fn assignment_returns_assigned_value() {
    let prog = vec![
        let_stmt("x", num(1)),
        print_stmt(Expr::Assign("x".to_string(), Box::new(num(5)))),
        print_stmt(get("x")),
    ];
    let (r, out) = run_collected(prog);
    assert_eq!(r, Ok(()));
    assert_eq!(out, "5\n5\n");
}

#[test]
fn inherited_environment_is_readable() {
    let mut it = Interpreter::new(vec![("HOME".to_string(), "/home/u".to_string())]);
    it.do_collect();
    let mut launcher = FakeLauncher::new("");
    let prog = vec![print_stmt(get("HOME"))];
    assert_eq!(it.run(&prog, &mut launcher), Ok(()));
    assert_eq!(it.collector.clone().unwrap(), "/home/u\n");
}

#[test]
fn print_goes_to_launcher_without_capture() {
    let mut it = Interpreter::new(Vec::new());
    let mut launcher = FakeLauncher::new("");
    let prog = vec![print_stmt(s("hi"))];
    assert_eq!(it.run(&prog, &mut launcher), Ok(()));
    assert_eq!(launcher.printed, vec!["hi".to_string()]);
}

#[test]
fn native_print_shape_in_value_model() {
    let it = Interpreter::new(Vec::new());
    match &it.stack.frames[0][0].1.val {
        Value::Func(Func::Native { name, params, func, receiver }) => {
            assert_eq!(name, "print");
            assert!(params.is_none());
            assert!(matches!(func, NativeFn::Print));
            assert!(receiver.is_none());
        }
        other => panic!("print is not a native function value: {:?}", other.is_truthy()),
    }
}

#[test]
fn command_statement_captures_output_with_line_break() {
    let mut it = Interpreter::new(Vec::new());
    it.do_collect();
    let mut launcher = FakeLauncher::new("listing");
    let atom = Cmd::Atom(vec![vec![Rc::new(s("ls"))]]);
    let prog = vec![Stmt::Cmd(atom)];
    assert_eq!(it.run(&prog, &mut launcher), Ok(()));
    assert_eq!(it.collector.clone().unwrap(), "listing\n");
    assert_eq!(launcher.captured, vec![vec!["ls".to_string()]]);
}

#[test]
fn command_expression_yields_captured_string() {
    let mut it = Interpreter::new(Vec::new());
    it.do_collect();
    let mut launcher = FakeLauncher::new("out");
    let atom = Cmd::Atom(vec![vec![Rc::new(s("pwd"))]]);
    let prog = vec![print_stmt(Expr::Cmd(atom))];
    assert_eq!(it.run(&prog, &mut launcher), Ok(()));
    assert_eq!(it.collector.clone().unwrap(), "out\n");
}

#[test]
fn command_words_concatenate_fragments_and_interpolations() {
    let mut it = Interpreter::new(Vec::new());
    it.do_collect();
    let mut launcher = FakeLauncher::new("");
    // word built from "file" + {1+1} -> "file2"
    let atom = Cmd::Atom(vec![
        vec![Rc::new(s("cat"))],
        vec![Rc::new(s("file")), Rc::new(bin(num(1), BinaryOp::Sum, num(1)))],
    ]);
    let prog = vec![Stmt::Cmd(atom)];
    assert_eq!(it.run(&prog, &mut launcher), Ok(()));
    assert_eq!(launcher.captured, vec![vec!["cat".to_string(), "file2".to_string()]]);
}

#[test]
fn exported_bindings_flow_into_subprocess_env() {
    let mut it = Interpreter::new(Vec::new());
    it.do_collect();
    let mut launcher = FakeLauncher::new("");
    let prog = vec![
        Stmt::Let { name: "MARK".to_string(), init: Some(s("yes")), is_exp: true },
        let_stmt("hidden", s("no")),
        Stmt::Cmd(Cmd::Atom(vec![vec![Rc::new(s("env"))]])),
    ];
    assert_eq!(it.run(&prog, &mut launcher), Ok(()));
    let env = &launcher.envs[0];
    assert!(env.contains(&("MARK".to_string(), "yes".to_string())));
    assert!(!env.iter().any(|p| p.0 == "hidden"));
}

#[test]
fn arithmetic_wraps_in_sixty_four_bits() {
    let prog = vec![
        print_stmt(bin(num(i64::MAX), BinaryOp::Sum, num(1))),
        print_stmt(bin(num(i64::MIN), BinaryOp::Div, num(-1))),
        print_stmt(bin(num(-7), BinaryOp::Div, num(2))),
        print_stmt(bin(num(-7), BinaryOp::Mod, num(2))),
    ];
    let (r, out) = run_collected(prog);
    assert_eq!(r, Ok(()));
    assert_eq!(
        out,
        "-9223372036854775808\n-9223372036854775808\n-3\n-1\n"
    );
}

#[test]
fn division_by_zero_is_rejected() {
    let (r, _) = run_collected(vec![Stmt::Expr(bin(num(1), BinaryOp::Div, num(0)))]);
    assert_eq!(r, Err(EvalError::TypeMismatch));
}

#[test]
fn inclusive_range_at_numeric_ceiling_is_rejected() {
    let (r, _) = run_collected(vec![Stmt::Expr(Expr::Range {
        l: Box::new(num(0)),
        r: Box::new(num(i64::MAX)),
        inclusive: true,
    })]);
    assert_eq!(r, Err(EvalError::RangeTypeError));
}

#[test]
fn nested_containers_display_recursively() {
    let prog = vec![
        let_stmt("inner", Expr::VecLit(vec![num(1), num(2)])),
        print_stmt(Expr::VecLit(vec![get("inner"), s("x")])),
    ];
    let (r, out) = run_collected(prog);
    assert_eq!(r, Ok(()));
    assert_eq!(out, "[[1, 2], 'x']\n");
}

#[test]
fn lambda_displays_by_shape() {
    let anon = Expr::Lambda(shscript::ast::FuncDef {
        name: None,
        params: Rc::new(Vec::new()),
        body: Rc::new(Stmt::Block(vec![])),
    });
    let named = Expr::Lambda(shscript::ast::FuncDef {
        name: Some("greet".to_string()),
        params: Rc::new(Vec::new()),
        body: Rc::new(Stmt::Block(vec![])),
    });
    let prog = vec![print_stmt(anon), print_stmt(named), print_stmt(get("print"))];
    let (r, out) = run_collected(prog);
    assert_eq!(r, Ok(()));
    assert_eq!(out, "<lambda func>\n<func greet>\n<native func print>\n");
}
