use compyler::{CodeGenerator, Lexer, Parser};

fn codegen(text: &str) -> String {
    let tokens = Lexer::new(text).lex().unwrap();
    let program = Parser::new(tokens).parse_program().unwrap();
    CodeGenerator::new(program).codegen().to_string()
}

#[test]
fn codegen_empty_program() {
    let expected = "(module (func $print (import \"host\" \"print\") (param i32)) \
        (func (export \"main\")))";
    assert_eq!(codegen(""), expected);
}

#[test]
fn codegen_print_int() {
    let expected = "(module (func $print (import \"host\" \"print\") \
         (param i32)) (func (export \"main\") i32.const 24 call $print))";
    assert_eq!(codegen("print 24"), expected);
}

#[test]
fn codegen_print_leq() {
    let expected = "(module (func $print (import \"host\" \"print\") \
         (param i32)) (func (export \"main\") i32.const 8 i32.const 8 \
         i32.le_s call $print))";
    assert_eq!(codegen("print 8 <= 8"), expected);
}

#[test]
fn codegen_print_ne() {
    let expected = "(module (func $print (import \"host\" \"print\") \
         (param i32)) (func (export \"main\") i32.const 8 i32.const 8 \
         i32.ne call $print))";
    assert_eq!(codegen("print 8 != 8"), expected);
}

#[test]
fn codegen_add_int() {
    let expected = "(module \
         (func $print (import \"host\" \"print\") (param i32)) \
         (func (export \"main\") \
         i32.const 1 \
         i32.const 2 \
         i32.add \
         call $print\
         ))";
    assert_eq!(codegen("print 1 + 2"), expected);
}

#[test]
fn codegen_sub_int() {
    let expected = "(module \
         (func $print (import \"host\" \"print\") (param i32)) \
         (func (export \"main\") \
         i32.const 2 \
         i32.const 1 \
         i32.sub \
         call $print\
         ))";
    assert_eq!(codegen("print 2 - 1"), expected);
}

#[test]
fn codegen_div_int() {
    let expected = "(module \
         (func $print (import \"host\" \"print\") (param i32)) \
         (func (export \"main\") \
         i32.const 9 \
         i32.const 3 \
         i32.div_s \
         call $print\
         ))";
    assert_eq!(codegen("print 9 / 3"), expected);
}

#[test]
fn codegen_mod_int() {
    let expected = "(module \
         (func $print (import \"host\" \"print\") (param i32)) \
         (func (export \"main\") \
         i32.const 13 \
         i32.const 7 \
         i32.rem_s \
         call $print\
         ))";
    assert_eq!(codegen("print 13 % 7"), expected);
}

#[test]
fn codegen_print_and() {
    let expected = "(module \
         (func $print (import \"host\" \"print\") (param i32)) \
         (func (export \"main\") \
         i32.const 1 \
         i32.const 2 \
         i32.ge_s \
         i32.const 2 \
         i32.const 7 \
         i32.lt_s \
         i32.and \
         call $print\
         ))";
    assert_eq!(codegen("print 1>=2 and 2<7"), expected);
}

#[test]
fn codegen_add_and_sub_int() {
    let expected = "(module \
         (func $print (import \"host\" \"print\") (param i32)) \
         (func (export \"main\") \
         i32.const 2 \
         i32.const 2 \
         i32.const 3 \
         i32.sub \
         i32.add \
         call $print))";
    assert_eq!(codegen("print 2 + 2 - 3"), expected);
}

#[test]
fn codegen_def() {
    let expected = "(module \
            (func $print (import \"host\" \"print\") (param i32)) \
            (func $f \
            (result i32) \
            i32.const 8) \
            (func (export \"main\")\
            ))";
    assert_eq!(codegen("def f():\n  return 8"), expected);
}

#[test]
fn codegen_def_param() {
    let expected = "(module \
            (func $print (import \"host\" \"print\") (param i32)) \
            (func $f \
            (param $n i32) \
            (result i32) \
            get_local $n) \
            (func (export \"main\")\
            ))";
    assert_eq!(codegen("def f(n):\n  return n"), expected);
}

#[test]
fn codegen_def_params() {
    let expected = "(module \
            (func $print (import \"host\" \"print\") (param i32)) \
            (func $f \
            (param $m i32) \
            (param $n i32) \
            (param $o i32) \
            (param $p i32) \
            (result i32) \
            get_local $p) \
            (func (export \"main\")\
            ))";
    assert_eq!(codegen("def f(m, n, o, p):\n  return p"), expected);
}

#[test]
fn codegen_function_call() {
    let expected = "(module \
            (func $print (import \"host\" \"print\") (param i32)) \
            (func $f (param $a i32) (param $b i32) (result i32) \
            get_local $a \
            get_local $b \
            i32.add) \
            (func (export \"main\") \
            i32.const 2 \
            i32.const 3 \
            call $f \
            call $print))";
    assert_eq!(codegen("def f(a, b):\n  return a + b\nprint f(2, 3)"), expected);
}

#[test]
fn codegen_if_else() {
    let expected = "(module \
            (func $print (import \"host\" \"print\") (param i32)) \
            (func $f (param $a i32) (result i32) \
            get_local $a \
            i32.const 5 \
            i32.lt_s \
            if (result i32) \
            i32.const 0 \
            else \
            i32.const 1 \
            end) \
            (func (export \"main\") \
            i32.const 1 \
            call $f \
            call $print))";
    assert_eq!(codegen("def f(a):\n  if a < 5:\n    return 0\n  else:\n    return 1\nprint f(1)"), expected);
}

#[test]
fn codegen_elif() {
    let expected = "(module \
            (func $print (import \"host\" \"print\") (param i32)) \
            (func $f (param $n i32) (result i32) \
                get_local $n \
                i32.const 5 \
                i32.lt_s \
                if (result i32) \
                    i32.const 0 \
                else \
                    get_local $n \
                    i32.const 10 \
                    i32.lt_s \
                    if (result i32) \
                        i32.const 1 \
                    else \
                        i32.const 2 \
                    end \
                end) \
            (func (export \"main\") \
                i32.const 4 \
                call $f \
                call $print \
                i32.const 8 \
                call $f \
                call $print \
                i32.const 11 \
                call $f \
                call $print))";
    assert_eq!(codegen("def f(n):\n if n < 5:\n  return 0\n elif n < 10:\n  return 1\n else:\
        \n  return 2\nprint f(4)\nprint f(8)\nprint f(11)"), expected);
}

#[test]
fn codegen_elif_multiple() {
    let expected = "(module \
            (func $print (import \"host\" \"print\") (param i32)) \
            (func $f (param $n i32) (result i32) \
                get_local $n \
                i32.const 5 \
                i32.lt_s \
                if (result i32) \
                    i32.const 0 \
                else \
                    get_local $n \
                    i32.const 10 \
                    i32.lt_s \
                    if (result i32) \
                        i32.const 1 \
                    else \
                        get_local $n \
                        i32.const 15 \
                        i32.lt_s \
                        if (result i32) \
                            i32.const 2 \
                        else \
                            i32.const 3 \
                        end \
                    end \
                end) \
            (func (export \"main\") \
                i32.const 4 \
                call $f \
                call $print \
                i32.const 8 \
                call $f \
                call $print \
                i32.const 81 \
                call $f \
                call $print))";
    assert_eq!(codegen("def f(n):\n if n < 5:\n  return 0\n elif n < 10:\n  return 1\n elif n < 15:\
        \n  return 2  \n else:\n  return 3\nprint f(4)\nprint f(8)\nprint f(81)"), expected);
}

#[test]
fn codegen_fib() {
    let expected = "(module \
            (func $print (import \"host\" \"print\") (param i32)) \
            (func $fib (param $n i32) (result i32) \
            get_local $n \
            i32.const 2 \
            i32.lt_s \
            if (result i32) \
            get_local $n \
            else \
            get_local $n \
            i32.const 2 \
            i32.sub \
            call $fib \
            get_local $n \
            i32.const 1 \
            i32.sub \
            call $fib \
            i32.add \
            end) \
            (func (export \"main\") \
            i32.const 4 \
            call $fib \
            call $print))";
    assert_eq!(codegen("def fib(n):\n  if n < 2:\n    return n\n  else:\n    return fib(n - 2) + fib(n - 1)\
        \nprint fib(4)"), expected);
}

use compyler::{Body, Expression, Program, Statement, Value, Wexp};

fn rendered(code: Vec<Wexp>) -> String {
    Wexp::List(code).to_string()
}

fn generator() -> CodeGenerator {
    CodeGenerator::new(Program { body: Body { statements: vec![] } })
}

fn integer(i: u32) -> Expression {
    Expression::Simple(Value::Integer(i))
}

fn variable(name: &str) -> Expression {
    Expression::Simple(Value::Variable(name.to_owned()))
}

const PRINT: &str = "(func $print (import \"host\" \"print\") (param i32))";

#[test]
fn codegen_parenthesised_expression() {
    let expected = format!(
        "(module {} (func (export \"main\") i32.const 2 i32.const 1 i32.add i32.const 7 i32.mul call $print))",
        PRINT
    );
    assert_eq!(codegen("print (2 + 1) * 7"), expected);
    let expected = format!(
        "(module {} (func (export \"main\") i32.const 2 i32.const 1 i32.const 7 i32.mul i32.add call $print))",
        PRINT
    );
    assert_eq!(codegen("print 2 + 1 * 7"), expected);
}

#[test]
fn codegen_nested_def_is_not_emitted() {
    let expected = format!("(module {} (func $f (result i32) i32.const 2) (func (export \"main\")))", PRINT);
    assert_eq!(codegen("def f():\n  def g():\n    return 1\n  return 2"), expected);
}

#[test]
fn codegen_defs_come_before_main_in_source_order() {
    let expected = format!(
        "(module {} (func $a (result i32) i32.const 1) (func $b (result i32) i32.const 2) \
         (func (export \"main\") i32.const 0 call $print call $a call $print))",
        PRINT
    );
    assert_eq!(codegen("print 0\ndef a():\n  return 1\nprint a()\ndef b():\n  return 2"), expected);
}

#[test]
fn codegen_if_without_else() {
    let expected = format!(
        "(module {} (func (export \"main\") get_local $a if (result i32) i32.const 7 call $print end))",
        PRINT
    );
    assert_eq!(codegen("if a:\n  print 7"), expected);
}

#[test]
fn codegen_elif_without_else() {
    let expected = format!(
        "(module {} (func (export \"main\") get_local $a if (result i32) i32.const 7 \
         else get_local $b if (result i32) i32.const 8 end end))",
        PRINT
    );
    assert_eq!(codegen("if a:\n  return 7\nelif b:\n  return 8"), expected);
}

#[test]
fn codegen_or_and_mult() {
    let expected = format!(
        "(module {} (func (export \"main\") i32.const 1 i32.const 0 i32.or call $print \
         i32.const 3 i32.const 4 i32.mul call $print i32.const 3 i32.const 4 i32.gt_s call $print \
         i32.const 3 i32.const 4 i32.eq call $print))",
        PRINT
    );
    assert_eq!(codegen("print 1 or 0\nprint 3 * 4\nprint 3 > 4\nprint 3 == 4"), expected);
}

#[test]
fn codegen_value_of_each_kind() {
    let g = generator();
    assert_eq!(rendered(g.codegen_value(&Value::Integer(0))), "(i32.const 0)");
    assert_eq!(rendered(g.codegen_value(&Value::Integer(10))), "(i32.const 10)");
    assert_eq!(rendered(g.codegen_value(&Value::Integer(4294967295))), "(i32.const 4294967295)");
    assert_eq!(rendered(g.codegen_value(&Value::Variable("n".to_owned()))), "(get_local $n)");
    let inner = Expression::Add(Box::new(integer(1)), Box::new(variable("x")));
    assert_eq!(
        rendered(g.codegen_value(&Value::Complex(Box::new(inner)))),
        "(i32.const 1 get_local $x i32.add)"
    );
}

#[test]
fn codegen_expression_is_in_stack_order() {
    let g = generator();
    let call = Expression::Call {
        name: "f".to_owned(),
        params: vec![integer(1), Expression::Sub(Box::new(variable("a")), Box::new(integer(2)))],
    };
    assert_eq!(
        rendered(g.codegen_expression(&call)),
        "(i32.const 1 get_local $a i32.const 2 i32.sub call $f)"
    );
    let e = Expression::Mod(Box::new(call), Box::new(integer(3)));
    assert_eq!(
        rendered(g.codegen_expression(&e)),
        "(i32.const 1 get_local $a i32.const 2 i32.sub call $f i32.const 3 i32.rem_s)"
    );
}

#[test]
fn codegen_statement_of_each_kind() {
    let g = generator();
    assert_eq!(rendered(g.codegen_statement(&Statement::Print(integer(7)))), "(i32.const 7 call $print)");
    assert_eq!(rendered(g.codegen_statement(&Statement::Return(variable("a")))), "(get_local $a)");
    let conditional = Statement::If {
        condition: variable("a"),
        body: Body { statements: vec![Statement::Return(integer(1))] },
        elif: vec![],
        else_body: Some(Body { statements: vec![Statement::Return(integer(2))] }),
    };
    assert_eq!(
        rendered(g.codegen_statement(&conditional)),
        "(get_local $a if (result i32) i32.const 1 else i32.const 2 end)"
    );
    assert_eq!(rendered(g.codegen_if(&conditional)), rendered(g.codegen_statement(&conditional)));
}

#[test]
fn codegen_if_of_another_statement_is_empty() {
    let g = generator();
    assert_eq!(rendered(g.codegen_if(&Statement::Print(integer(7)))), "()");
}

#[test]
fn codegen_def_of_another_statement_is_bare() {
    let g = generator();
    assert_eq!(g.codegen_def(&Statement::Print(integer(7))).to_string(), "(func)");
}

#[test]
fn codegen_body_skips_definitions() {
    let g = generator();
    let def = Statement::Def {
        name: "f".to_owned(),
        params: vec!["a".to_owned()],
        body: Body { statements: vec![Statement::Return(variable("a"))] },
    };
    let body = Body { statements: vec![Statement::Print(integer(1)), def, Statement::Print(integer(2))] };
    assert_eq!(rendered(g.codegen_body(&body)), "(i32.const 1 call $print i32.const 2 call $print)");
    assert_eq!(rendered(g.codegen_defs(&body)), "((func $f (param $a i32) (result i32) get_local $a))");
}
