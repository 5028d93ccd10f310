use ski::ast::{
    BinaryExpr, BinaryOpKind, ConstDecl, Expr, For, FuncCall, FuncDef, If, Loop, UnaryExpr,
    UnaryOpKind, VariableDecl, While,
};
use ski::compiler::{CompileError, Compiler, Target};
use ski::lexer::{Symbol, TokenKind};

#[test]
fn render_var_decl() {
    let node = Expr::VariableDecl(Box::new(VariableDecl {
        name: String::from("x"),
        value: Expr::Int(1),
    }));
    assert_eq!(node.compile(&Target::Batch).unwrap(), "set x=1\n");
}

#[test]
fn render_bare_loop() {
    let node = Expr::Loop(Box::new(Loop {
        body: Expr::VariableDecl(Box::new(VariableDecl {
            name: String::from("x"),
            value: Expr::Int(1),
        })),
    }));
    let text = node.compile(&Target::Batch).unwrap();
    // a label, the body text, and a jump back to that label, in that order
    assert_eq!(text, ":LOOP\nset x=1\n\ngoto :LOOP");
    let label_at = text.find(":LOOP").unwrap();
    let body_at = text.find("set x=1").unwrap();
    let jump_at = text.rfind("goto :LOOP").unwrap();
    assert!(label_at < body_at && body_at < jump_at);
}

#[test]
fn render_return_fails() {
    let node = Expr::Return(Box::new(Expr::Int(1)));
    assert_eq!(
        node.compile(&Target::Batch),
        Err(CompileError::Unsupported)
    );
}

#[test]
fn render_unimplemented_nodes_fail() {
    let nodes = vec![
        Expr::Continue,
        Expr::Break,
        Expr::ConstDecl(Box::new(ConstDecl {
            name: String::from("c"),
            value: Expr::Int(1),
        })),
        Expr::While(Box::new(While {
            cond: Expr::Variable(String::from("a")),
            body: Expr::Int(1),
        })),
        Expr::FuncDef(Box::new(FuncDef {
            name: String::from("f"),
            params: vec![String::from("a")],
            body: Expr::Int(1),
        })),
        Expr::Literal(ski::lexer::Literal::Bool(true)),
    ];
    for node in nodes {
        assert_eq!(
            node.compile(&Target::Batch),
            Err(CompileError::Unsupported)
        );
    }
}

#[test]
fn render_unary() {
    let minus = Expr::Unary(Box::new(UnaryExpr {
        op: UnaryOpKind::Minus,
        child: Expr::Variable(String::from("x")),
    }));
    assert_eq!(minus.compile(&Target::Batch).unwrap(), "-x");
    let not = Expr::Unary(Box::new(UnaryExpr {
        op: UnaryOpKind::LogicalNot,
        child: Expr::Variable(String::from("x")),
    }));
    // operator text and child text with no separator
    assert_eq!(not.compile(&Target::Batch).unwrap(), "NOTx");
    let flip = Expr::Unary(Box::new(UnaryExpr {
        op: UnaryOpKind::BitwiseNot,
        child: Expr::Int(7),
    }));
    assert_eq!(flip.compile(&Target::Batch).unwrap(), "~7");
}

#[test]
fn render_binary() {
    let node = Expr::Binary(Box::new(BinaryExpr {
        op: BinaryOpKind::Add,
        left: Expr::Int(1),
        right: Expr::Int(2),
    }));
    assert_eq!(node.compile(&Target::Batch).unwrap(), "\"%1%\" + \"%2%\"");
    let cmp = Expr::Binary(Box::new(BinaryExpr {
        op: BinaryOpKind::Lt,
        left: Expr::Variable(String::from("a")),
        right: Expr::Variable(String::from("b")),
    }));
    assert_eq!(cmp.compile(&Target::Batch).unwrap(), "\"%a%\" LSS \"%b%\"");
}

#[test]
fn render_if() {
    let node = Expr::If(Box::new(If {
        cond: Expr::Variable(String::from("a")),
        then_: Expr::Int(1),
        else_: Expr::Int(2),
    }));
    assert_eq!(
        node.compile(&Target::Batch).unwrap(),
        "If a ( \n 1 ) \n ELSE ( 2 \n ) \n"
    );
}

#[test]
fn render_for() {
    let node = Expr::For(Box::new(For {
        item: String::from("i"),
        container: Expr::Variable(String::from("xs")),
        body: Expr::Int(1),
    }));
    assert_eq!(
        node.compile(&Target::Batch).unwrap(),
        "FOR %%i IN xs DO (\n1)\n"
    );
}

#[test]
fn render_block_joins_lines() {
    let node = Expr::Block(vec![
        Expr::VariableDecl(Box::new(VariableDecl {
            name: String::from("x"),
            value: Expr::Int(1),
        })),
        Expr::VariableDecl(Box::new(VariableDecl {
            name: String::from("y"),
            value: Expr::Int(2),
        })),
    ]);
    // one child per line, stored order preserved
    assert_eq!(
        node.compile(&Target::Batch).unwrap(),
        "set x=1\n\nset y=2\n"
    );
    assert_eq!(
        Expr::Block(vec![]).compile(&Target::Batch).unwrap(),
        ""
    );
}

#[test]
fn render_block_fails_on_unsupported_child() {
    let node = Expr::Block(vec![Expr::Int(1), Expr::Break]);
    assert_eq!(
        node.compile(&Target::Batch),
        Err(CompileError::Unsupported)
    );
}

#[test]
fn render_func_call() {
    let node = Expr::FuncCall(Box::new(FuncCall {
        func_name: String::from("f"),
        params: vec![Expr::Int(1), Expr::Variable(String::from("a"))],
    }));
    assert_eq!(node.compile(&Target::Batch).unwrap(), "CALL :f 1 a\n");
    let bare = Expr::FuncCall(Box::new(FuncCall {
        func_name: String::from("f"),
        params: vec![],
    }));
    assert_eq!(bare.compile(&Target::Batch).unwrap(), "CALL :f\n");
}

#[test]
fn render_integers() {
    assert_eq!(Expr::Int(0).compile(&Target::Batch).unwrap(), "0");
    assert_eq!(
        Expr::Int(1234567890).compile(&Target::Batch).unwrap(),
        "1234567890"
    );
    assert_eq!(
        Expr::Int(u64::MAX).compile(&Target::Batch).unwrap(),
        "18446744073709551615"
    );
}

#[test]
fn render_strings_and_variables() {
    assert_eq!(
        Expr::Str(String::from("hello")).compile(&Target::Batch).unwrap(),
        "hello"
    );
    assert_eq!(
        Expr::Variable(String::from("v")).compile(&Target::Batch).unwrap(),
        "v"
    );
}

#[test]
fn render_reserved_targets_fail() {
    for target in [Target::Asm, Target::Dos, Target::Bash] {
        assert_eq!(
            Expr::Int(1).compile(&target),
            Err(CompileError::Unsupported)
        );
    }
}

#[test]
fn binop_from_token() {
    assert_eq!(
        BinaryOpKind::from_token(&TokenKind::Symbol(Symbol::Add)),
        Ok(BinaryOpKind::Add)
    );
    assert_eq!(
        BinaryOpKind::from_token(&TokenKind::Symbol(Symbol::Equal)),
        Ok(BinaryOpKind::Assign)
    );
    assert_eq!(
        BinaryOpKind::from_token(&TokenKind::Symbol(Symbol::DoubleEqual)),
        Ok(BinaryOpKind::Eq)
    );
    assert_eq!(
        BinaryOpKind::from_token(&TokenKind::Symbol(Symbol::Shl)),
        Ok(BinaryOpKind::Shl)
    );
    assert_eq!(
        BinaryOpKind::from_token(&TokenKind::Symbol(Symbol::Pow)),
        Err("unexpected symbol type")
    );
    assert_eq!(
        BinaryOpKind::from_token(&TokenKind::Identifier(String::from("x"))),
        Err("unexpected token type")
    );
}

#[test]
fn binop_spellings() {
    assert_eq!(
        BinaryOpKind::Assign.compile(&Target::Batch).unwrap(),
        "EQU"
    );
    assert_eq!(BinaryOpKind::Ne.compile(&Target::Batch).unwrap(), "NEQ");
    assert_eq!(BinaryOpKind::GtEq.compile(&Target::Batch).unwrap(), "GEQ");
    assert_eq!(
        BinaryOpKind::Xor.compile(&Target::Asm),
        Err(CompileError::Unsupported)
    );
}

#[test]
fn compiler_renders_held_tree() {
    let compiler = Compiler::new(Expr::VariableDecl(Box::new(VariableDecl {
        name: String::from("x"),
        value: Expr::Int(1),
    })));
    assert_eq!(
        compiler.compile_text(&Target::Batch).unwrap(),
        "set x=1\n"
    );
    assert_eq!(
        compiler.compile_text(&Target::Dos),
        Err(CompileError::Unsupported)
    );
}

#[test]
fn compiler_for_entry_point_fails() {
    let mut compiler = Compiler::new(Expr::Int(1));
    assert_eq!(compiler.compile_for(), Err(CompileError::Unsupported));
}
