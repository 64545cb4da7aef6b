use sysy_checker::ast::{
    BinaryOp, Block, BlockItem, CheckError, Definition, Expr, GlobalItem, Initializer, Parameter,
    Statement, TranslationUnit, Type, UnaryOp,
};
use sysy_checker::checker::Checker;
use sysy_checker::table::{Scope, SymbolTable, SymbolTableItem};

fn num(n: i32) -> Expr {
    Expr::Num(n)
}

fn var(n: &str) -> Expr {
    Expr::LVal(n.to_string(), Vec::new())
}

fn index(n: &str, idx: Vec<Expr>) -> Expr {
    Expr::LVal(n.to_string(), idx)
}

fn bin(op: BinaryOp, a: Expr, b: Expr) -> Expr {
    Expr::Binary(op, Box::new(a), Box::new(b))
}

fn call(n: &str, args: Vec<Expr>) -> Expr {
    Expr::Call(n.to_string(), args)
}

fn int_var(n: &str, init: Option<Expr>) -> Definition {
    Definition::VariableDefinition(n.to_string(), init)
}

fn const_int(n: &str, e: Expr) -> Definition {
    Definition::ConstVariableDefinition(n.to_string(), e)
}

fn def(d: Definition) -> BlockItem {
    BlockItem::Definition(d)
}

fn stmt(s: Statement) -> BlockItem {
    BlockItem::Statement(s)
}

fn ret(e: Option<Expr>) -> BlockItem {
    stmt(Statement::Return(e))
}

fn func(return_void: bool, n: &str, params: Vec<Parameter>, block: Block) -> GlobalItem {
    GlobalItem::FunctionDefinition {
        return_void,
        identifier: n.to_string(),
        parameter_list: params,
        block,
    }
}

fn global(d: Definition) -> GlobalItem {
    GlobalItem::Definition(d)
}

fn run(mut ast: TranslationUnit) -> Result<(), CheckError> {
    let mut checker = Checker::new();
    checker.check(&mut ast)
}

fn main_returning(body: Block) -> TranslationUnit {
    vec![func(false, "main", Vec::new(), body)]
}

#[test]
fn duplicate_global_definition() {
    let ast = vec![global(int_var("x", None)), global(int_var("x", None))];
    assert_eq!(run(ast), Err(CheckError::DuplicateDefinition));
}

#[test]
fn duplicate_in_one_block() {
    let body = vec![def(int_var("a", None)), def(const_int("a", num(1))), ret(Some(num(0)))];
    assert_eq!(run(main_returning(body)), Err(CheckError::DuplicateDefinition));
}

#[test]
fn duplicate_parameters() {
    let ast = vec![func(
        true,
        "f",
        vec![Parameter::Int("p".to_string()), Parameter::Int("p".to_string())],
        Vec::new(),
    )];
    assert_eq!(run(ast), Err(CheckError::DuplicateDefinition));
}

#[test]
fn parameter_shadowed_in_inner_block() {
    let ast = vec![func(
        false,
        "f",
        vec![Parameter::Int("x".to_string())],
        vec![BlockItem::Block(vec![def(int_var("x", Some(num(2))))]), ret(Some(var("x")))],
    )];
    assert_eq!(run(ast), Ok(()));
}

#[test]
fn parameter_shadowed_in_body() {
    let ast = vec![func(
        false,
        "f",
        vec![Parameter::Int("x".to_string())],
        vec![def(int_var("x", None)), ret(Some(var("x")))],
    )];
    assert_eq!(run(ast), Ok(()));
}

#[test]
fn global_shadowed_in_function() {
    let ast = vec![
        global(int_var("g", None)),
        func(true, "f", Vec::new(), vec![def(int_var("g", None)), def(int_var("getint", None))]),
    ];
    assert_eq!(run(ast), Ok(()));
}

#[test]
fn intrinsic_redefined_globally() {
    let ast = vec![global(int_var("getint", None))];
    assert_eq!(run(ast), Err(CheckError::DuplicateDefinition));
}

#[test]
fn undefined_variable() {
    assert_eq!(run(main_returning(vec![ret(Some(var("y")))])), Err(CheckError::UndefinedIdentifier));
}

#[test]
fn undefined_function() {
    let body = vec![stmt(Statement::Expr(call("nothing", Vec::new()))), ret(Some(num(0)))];
    assert_eq!(run(main_returning(body)), Err(CheckError::UndefinedIdentifier));
}

#[test]
fn name_out_of_scope_after_block() {
    let body = vec![BlockItem::Block(vec![def(int_var("t", None))]), ret(Some(var("t")))];
    assert_eq!(run(main_returning(body)), Err(CheckError::UndefinedIdentifier));
}

#[test]
fn break_and_continue_in_while() {
    let body = vec![
        stmt(Statement::While {
            condition: num(1),
            block: vec![
                stmt(Statement::If {
                    condition: num(1),
                    then_block: vec![stmt(Statement::Break)],
                    else_block: vec![BlockItem::Block(vec![stmt(Statement::Continue)])],
                }),
            ],
        }),
        ret(Some(num(0))),
    ];
    assert_eq!(run(main_returning(body)), Ok(()));
}

#[test]
fn break_outside_loop() {
    assert_eq!(run(main_returning(vec![stmt(Statement::Break)])), Err(CheckError::IllegalJump));
}

#[test]
fn continue_in_if_outside_loop() {
    let body = vec![stmt(Statement::If {
        condition: num(1),
        then_block: vec![stmt(Statement::Continue)],
        else_block: Vec::new(),
    })];
    assert_eq!(run(main_returning(body)), Err(CheckError::IllegalJump));
}

#[test]
fn bare_return_in_int_function() {
    assert_eq!(run(main_returning(vec![ret(None)])), Err(CheckError::MissingReturnValue));
}

#[test]
fn value_returned_from_void_function() {
    let ast = vec![func(true, "f", Vec::new(), vec![ret(Some(num(1)))])];
    assert_eq!(run(ast), Err(CheckError::UnexpectedReturnValue));
}

#[test]
fn int_function_returns_sum() {
    assert_eq!(run(main_returning(vec![ret(Some(bin(BinaryOp::Add, num(1), num(2))))])), Ok(()));
}

#[test]
fn void_return_of_void_function() {
    let ast = vec![func(true, "f", Vec::new(), vec![ret(None)])];
    assert_eq!(run(ast), Ok(()));
}

#[test]
fn return_of_array_is_mismatch() {
    let body = vec![
        def(Definition::ArrayDefinition {
            identifier: "a".to_string(),
            lengths: vec![num(3)],
            init_list: None,
        }),
        ret(Some(var("a"))),
    ];
    assert_eq!(run(main_returning(body)), Err(CheckError::TypeMismatch));
}

#[test]
fn const_folds_and_sizes_array() {
    let mut ast = vec![
        global(const_int("a", bin(BinaryOp::Add, num(3), num(4)))),
        global(Definition::ArrayDefinition {
            identifier: "arr".to_string(),
            lengths: vec![var("a")],
            init_list: None,
        }),
    ];
    let mut checker = Checker::new();
    assert_eq!(checker.check(&mut ast), Ok(()));
    match checker.table.search("a") {
        Some(SymbolTableItem::ConstVariable(v)) => assert_eq!(*v, 7),
        _ => panic!("a is not a constant"),
    }
    match checker.table.search("arr") {
        Some(SymbolTableItem::Array(d)) => assert_eq!(d, &vec![7usize]),
        _ => panic!("arr is not an array"),
    }
}

#[test]
fn const_from_call_is_not_constant() {
    let ast = vec![global(const_int("a", call("getint", Vec::new())))];
    assert_eq!(run(ast), Err(CheckError::NotConstant));
}

#[test]
fn const_from_variable_is_not_constant() {
    let ast = vec![global(int_var("v", Some(num(1)))), global(const_int("c", var("v")))];
    assert_eq!(run(ast), Err(CheckError::NotConstant));
}

#[test]
fn array_length_from_variable_is_not_constant() {
    let ast = vec![
        global(int_var("n", None)),
        global(Definition::ArrayDefinition {
            identifier: "a".to_string(),
            lengths: vec![var("n")],
            init_list: None,
        }),
    ];
    assert_eq!(run(ast), Err(CheckError::NotConstant));
}

#[test]
fn negative_array_length() {
    let ast = vec![global(Definition::ArrayDefinition {
        identifier: "a".to_string(),
        lengths: vec![Expr::Unary(UnaryOp::Neg, Box::new(num(1)))],
        init_list: None,
    })];
    assert_eq!(run(ast), Err(CheckError::NotConstant));
}

#[test]
fn constant_arithmetic() {
    let ast = vec![
        global(const_int("q", bin(BinaryOp::Div, num(-7), num(2)))),
        global(const_int("r", bin(BinaryOp::Mod, num(-7), num(2)))),
        global(const_int("m", bin(BinaryOp::Mul, num(6), num(7)))),
        global(const_int("l", bin(BinaryOp::Lt, num(1), num(2)))),
        global(const_int("n", Expr::Unary(UnaryOp::Not, Box::new(num(5))))),
        global(const_int("o", bin(BinaryOp::Or, num(0), num(3)))),
    ];
    let mut ast = ast;
    let mut checker = Checker::new();
    assert_eq!(checker.check(&mut ast), Ok(()));
    let expected = [("q", -3), ("r", -1), ("m", 42), ("l", 1), ("n", 0), ("o", 1)];
    for (name, value) in expected {
        match checker.table.search(name) {
            Some(SymbolTableItem::ConstVariable(v)) => assert_eq!(*v, value, "{}", name),
            _ => panic!("{} is not a constant", name),
        }
    }
}

#[test]
fn division_by_zero_is_not_constant() {
    let ast = vec![global(const_int("z", bin(BinaryOp::Div, num(1), num(0))))];
    assert_eq!(run(ast), Err(CheckError::NotConstant));
}

#[test]
fn overflow_is_not_constant() {
    let ast = vec![global(const_int("z", bin(BinaryOp::Add, num(i32::MAX), num(1))))];
    assert_eq!(run(ast), Err(CheckError::NotConstant));
}

#[test]
fn recursive_function() {
    let body = vec![
        stmt(Statement::If {
            condition: var("n"),
            then_block: vec![ret(Some(bin(
                BinaryOp::Mul,
                var("n"),
                call("fact", vec![bin(BinaryOp::Sub, var("n"), num(1))]),
            )))],
            else_block: Vec::new(),
        }),
        ret(Some(num(1))),
    ];
    let ast = vec![func(false, "fact", vec![Parameter::Int("n".to_string())], body)];
    assert_eq!(run(ast), Ok(()));
}

#[test]
fn call_before_definition_is_undefined() {
    let ast = vec![
        func(false, "f", Vec::new(), vec![ret(Some(call("g", Vec::new())))]),
        func(false, "g", Vec::new(), vec![ret(Some(num(1)))]),
    ];
    assert_eq!(run(ast), Err(CheckError::UndefinedIdentifier));
}

#[test]
fn check_is_repeatable() {
    let mut bad = vec![global(int_var("x", None)), global(int_var("x", None))];
    let first = Checker::new().check(&mut bad);
    let second = Checker::new().check(&mut bad);
    assert_eq!(first, second);
    assert_eq!(first, Err(CheckError::DuplicateDefinition));
    let mut good = main_returning(vec![ret(Some(num(0)))]);
    assert_eq!(Checker::new().check(&mut good), Ok(()));
    assert_eq!(Checker::new().check(&mut good), Ok(()));
}

#[test]
fn void_initializer_is_mismatch() {
    let body = vec![def(int_var("v", Some(call("putint", vec![num(1)])))), ret(Some(num(0)))];
    assert_eq!(run(main_returning(body)), Err(CheckError::TypeMismatch));
}

#[test]
fn void_condition_is_illegal() {
    let cond = call("putch", vec![num(65)]);
    let body = vec![stmt(Statement::While { condition: cond, block: Vec::new() }), ret(Some(num(0)))];
    assert_eq!(run(main_returning(body)), Err(CheckError::IllegalCondition));
    let cond = call("starttime", Vec::new());
    let body = vec![stmt(Statement::If {
        condition: cond,
        then_block: Vec::new(),
        else_block: Vec::new(),
    })];
    assert_eq!(run(main_returning(body)), Err(CheckError::IllegalCondition));
}

#[test]
fn too_many_initializers() {
    let ast = vec![global(Definition::ArrayDefinition {
        identifier: "a".to_string(),
        lengths: vec![num(2)],
        init_list: Some(vec![
            Initializer::Expr(num(1)),
            Initializer::Expr(num(2)),
            Initializer::Expr(num(3)),
        ]),
    })];
    assert_eq!(run(ast), Err(CheckError::ShapeMismatch));
}

#[test]
fn braces_deeper_than_rank() {
    let ast = vec![global(Definition::ArrayDefinition {
        identifier: "a".to_string(),
        lengths: vec![num(2)],
        init_list: Some(vec![Initializer::List(vec![Initializer::Expr(num(1))])]),
    })];
    assert_eq!(run(ast), Err(CheckError::ShapeMismatch));
}

#[test]
fn const_array_flattened_with_zeros() {
    let mut ast = vec![
        global(Definition::ConstArrayDefinition {
            identifier: "c".to_string(),
            lengths: vec![num(2), num(2)],
            init_list: vec![
                Initializer::List(vec![Initializer::Expr(num(1))]),
                Initializer::List(vec![Initializer::Expr(num(3)), Initializer::Expr(num(4))]),
            ],
        }),
        global(Definition::ConstArrayDefinition {
            identifier: "d".to_string(),
            lengths: vec![num(2), num(3)],
            init_list: vec![
                Initializer::Expr(num(1)),
                Initializer::List(vec![Initializer::Expr(num(5))]),
            ],
        }),
        global(Definition::ConstArrayDefinition {
            identifier: "e".to_string(),
            lengths: vec![num(3)],
            init_list: Vec::new(),
        }),
    ];
    let mut checker = Checker::new();
    assert_eq!(checker.check(&mut ast), Ok(()));
    match checker.table.search("c") {
        Some(SymbolTableItem::ConstArray(d, v)) => {
            assert_eq!(d, &vec![2usize, 2]);
            assert_eq!(v, &vec![1, 0, 3, 4]);
        },
        _ => panic!("c is not a constant array"),
    }
    match checker.table.search("d") {
        Some(SymbolTableItem::ConstArray(_, v)) => assert_eq!(v, &vec![1, 0, 0, 5, 0, 0]),
        _ => panic!("d is not a constant array"),
    }
    match checker.table.search("e") {
        Some(SymbolTableItem::ConstArray(_, v)) => assert_eq!(v, &vec![0, 0, 0]),
        _ => panic!("e is not a constant array"),
    }
}

#[test]
fn const_array_element_must_be_constant() {
    let ast = vec![
        global(int_var("v", None)),
        global(Definition::ConstArrayDefinition {
            identifier: "c".to_string(),
            lengths: vec![num(1)],
            init_list: vec![Initializer::Expr(var("v"))],
        }),
    ];
    assert_eq!(run(ast), Err(CheckError::NotConstant));
}

#[test]
fn array_element_must_be_int() {
    let ast = vec![func(
        true,
        "f",
        Vec::new(),
        vec![def(Definition::ArrayDefinition {
            identifier: "a".to_string(),
            lengths: vec![num(1)],
            init_list: Some(vec![Initializer::Expr(call("putint", vec![num(0)]))]),
        })],
    )];
    assert_eq!(run(ast), Err(CheckError::TypeMismatch));
}

#[test]
fn pointer_parameters_and_shapes() {
    let sum = func(
        false,
        "sum",
        vec![
            Parameter::Pointer("a".to_string(), Vec::new()),
            Parameter::Int("n".to_string()),
        ],
        vec![ret(Some(bin(BinaryOp::Add, index("a", vec![num(0)]), var("n"))))],
    );
    let rows = func(
        false,
        "rows",
        vec![Parameter::Pointer("m".to_string(), vec![num(3)])],
        vec![ret(Some(index("m", vec![num(1), num(2)])))],
    );
    let arrays = vec![
        def(Definition::ArrayDefinition {
            identifier: "v".to_string(),
            lengths: vec![num(3)],
            init_list: None,
        }),
        def(Definition::ArrayDefinition {
            identifier: "m".to_string(),
            lengths: vec![num(2), num(3)],
            init_list: None,
        }),
    ];
    let mut ok_body = arrays;
    ok_body.push(stmt(Statement::Expr(call("sum", vec![var("v"), num(3)]))));
    ok_body.push(stmt(Statement::Expr(call("sum", vec![index("m", vec![num(1)]), num(3)]))));
    ok_body.push(stmt(Statement::Expr(call("rows", vec![var("m")]))));
    ok_body.push(stmt(Statement::Expr(call("getarray", vec![var("v")]))));
    ok_body.push(stmt(Statement::Expr(call("putarray", vec![num(3), var("v")]))));
    ok_body.push(ret(Some(num(0))));
    let mut ast = vec![sum, rows, func(false, "main", Vec::new(), ok_body)];
    assert_eq!(Checker::new().check(&mut ast), Ok(()));
}

#[test]
fn pointer_shape_mismatch() {
    let sum = func(
        false,
        "sum",
        vec![Parameter::Pointer("a".to_string(), Vec::new())],
        vec![ret(Some(index("a", vec![num(0)])))],
    );
    let body = vec![
        def(Definition::ArrayDefinition {
            identifier: "m".to_string(),
            lengths: vec![num(2), num(3)],
            init_list: None,
        }),
        ret(Some(call("sum", vec![var("m")]))),
    ];
    let ast = vec![sum, func(false, "main", Vec::new(), body)];
    assert_eq!(run(ast), Err(CheckError::TypeMismatch));
}

#[test]
fn wrong_argument_count() {
    let body = vec![stmt(Statement::Expr(call("putint", Vec::new()))), ret(Some(num(0)))];
    assert_eq!(run(main_returning(body)), Err(CheckError::TypeMismatch));
}

#[test]
fn too_many_indices() {
    let body = vec![def(int_var("s", None)), ret(Some(index("s", vec![num(0)])))];
    assert_eq!(run(main_returning(body)), Err(CheckError::TypeMismatch));
}

#[test]
fn expression_types() {
    let mut table = SymbolTable::new();
    assert_eq!(table.insert_definition("x".to_string(), SymbolTableItem::Variable), Ok(()));
    assert_eq!(
        table.insert_definition("a".to_string(), SymbolTableItem::Array(vec![2, 3, 4])),
        Ok(())
    );
    assert!(matches!(var("x").expr_type(&table), Ok(Type::Int)));
    match index("a", vec![num(0)]).expr_type(&table) {
        Ok(Type::Pointer(d)) => assert_eq!(d, vec![4usize]),
        _ => panic!("a[0] is not a pointer"),
    }
    assert!(matches!(index("a", vec![num(0), num(1), num(2)]).expr_type(&table), Ok(Type::Int)));
    assert_eq!(var("x").const_eval(&table), Err(CheckError::NotConstant));
    assert_eq!(num(5).const_eval(&table), Ok(5));
}

#[test]
fn scope_stack() {
    let mut table = SymbolTable::new();
    assert_eq!(table.insert_definition("x".to_string(), SymbolTableItem::ConstVariable(1)), Ok(()));
    assert_eq!(
        table.insert_definition("x".to_string(), SymbolTableItem::Variable),
        Err(CheckError::DuplicateDefinition)
    );
    table.enter_scope();
    assert_eq!(table.insert_definition("x".to_string(), SymbolTableItem::ConstVariable(2)), Ok(()));
    assert!(matches!(table.search("x"), Some(SymbolTableItem::ConstVariable(2))));
    table.exit_scope();
    assert!(matches!(table.search("x"), Some(SymbolTableItem::ConstVariable(1))));
    assert!(table.search("y").is_none());
}

#[test]
fn new_table_holds_intrinsics() {
    let table = SymbolTable::new();
    for name in ["getint", "getch", "getarray", "putint", "putch", "putarray", "starttime", "stoptime"] {
        assert!(matches!(table.search(name), Some(SymbolTableItem::Function(_, _))), "{}", name);
    }
    match table.search("putarray") {
        Some(SymbolTableItem::Function(Type::Int, ps)) => {
            assert_eq!(ps.len(), 2);
            assert!(matches!(ps[0], Type::Int));
            assert!(matches!(&ps[1], Type::Pointer(d) if d.is_empty()));
        },
        _ => panic!("putarray has the wrong signature"),
    }
    assert!(matches!(table.search("putint"), Some(SymbolTableItem::Function(Type::Void, _))));
}

#[test]
fn same_checker_checks_again_from_scratch() {
    let mut checker = Checker::new();
    let mut ast = vec![global(int_var("a", None))];
    assert_eq!(checker.check(&mut ast), Ok(()));
    assert_eq!(checker.check(&mut ast), Ok(()));
    let mut bad = main_returning(vec![BlockItem::Block(vec![stmt(Statement::Break)])]);
    assert_eq!(checker.check(&mut bad), Err(CheckError::IllegalJump));
    assert_eq!(checker.check(&mut ast), Ok(()));
    assert!(checker.table.search("main").is_none());
}

#[test]
fn redefinition_after_nested_block() {
    let body = vec![
        def(int_var("x", None)),
        BlockItem::Block(vec![def(int_var("x", None))]),
        def(int_var("x", None)),
    ];
    let ast = vec![func(true, "f", Vec::new(), body)];
    assert_eq!(run(ast), Err(CheckError::DuplicateDefinition));
    let body = vec![def(int_var("x", None)), BlockItem::Block(vec![def(int_var("x", None))])];
    let ast = vec![func(true, "f", Vec::new(), body)];
    assert_eq!(run(ast), Ok(()));
}

#[test]
fn const_array_elements_are_constant() {
    let table_def = global(Definition::ConstArrayDefinition {
        identifier: "c".to_string(),
        lengths: vec![num(2), num(2)],
        init_list: vec![
            Initializer::List(vec![Initializer::Expr(num(1)), Initializer::Expr(num(2))]),
            Initializer::List(vec![Initializer::Expr(num(3)), Initializer::Expr(num(4))]),
        ],
    });
    let mut ast = vec![
        table_def,
        global(const_int("x", index("c", vec![num(1), num(0)]))),
        global(Definition::ArrayDefinition {
            identifier: "a".to_string(),
            lengths: vec![index("c", vec![num(0), num(1)])],
            init_list: None,
        }),
    ];
    let mut checker = Checker::new();
    assert_eq!(checker.check(&mut ast), Ok(()));
    match checker.table.search("x") {
        Some(SymbolTableItem::ConstVariable(v)) => assert_eq!(*v, 3),
        _ => panic!("x is not a constant"),
    }
    match checker.table.search("a") {
        Some(SymbolTableItem::Array(d)) => assert_eq!(d, &vec![2usize]),
        _ => panic!("a is not an array"),
    }
}

#[test]
fn const_array_index_out_of_bounds() {
    let ast = vec![
        global(Definition::ConstArrayDefinition {
            identifier: "c".to_string(),
            lengths: vec![num(2)],
            init_list: vec![Initializer::Expr(num(1))],
        }),
        global(const_int("x", index("c", vec![num(2)]))),
    ];
    assert_eq!(run(ast), Err(CheckError::NotConstant));
}

#[test]
fn messages_name_the_rule() {
    assert_eq!(CheckError::IllegalJump.message(), "break or continue outside a loop");
    assert_eq!(
        CheckError::DuplicateDefinition.message(),
        "identifier is already defined in this scope"
    );
    assert_ne!(CheckError::NotConstant.message(), CheckError::ShapeMismatch.message());
}
