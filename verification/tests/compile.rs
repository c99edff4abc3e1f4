use compyler::{compile, try_compile, Error, Failure, Token, TokenKind};

fn module_text(text: &str) -> String {
    compile(text).unwrap().to_string()
}

#[test]
fn compile_empty() {
    let expected = "(module (func $print (import \"host\" \"print\") (param i32)) \
        (func (export \"main\")))";
    assert_eq!(module_text(""), expected);
}

#[test]
fn compile_print_int() {
    let expected = "(module (func $print (import \"host\" \"print\") (param i32)) (func (export \"main\") i32.const 7 call $print))";
    assert_eq!(module_text("print 7"), expected);
}

#[test]
fn compile_print_ints() {
    let expected = "(module (func $print (import \"host\" \"print\") (param i32)) (func (export \"main\") i32.const 7 call $print i32.const 1 i32.const 2 i32.add call $print))";
    assert_eq!(module_text("print 7\nprint 1 + 2"), expected);
}

#[test]
fn compile_print_leq() {
    let expected = "(module (func $print (import \"host\" \"print\") \
         (param i32)) (func (export \"main\") i32.const 8 i32.const 8 \
         i32.le_s call $print))";
    assert_eq!(module_text("print 8 <= 8"), expected);
}

#[test]
fn compile_print_div() {
    let expected = "(module \
         (func $print (import \"host\" \"print\") (param i32)) \
         (func (export \"main\") \
         i32.const 9 \
         i32.const 3 \
         i32.div_s \
         call $print\
         ))";
    assert_eq!(module_text("print 9 / 3"), expected);
}

#[test]
fn compile_function_call() {
    let expected = "(module \
            (func $print (import \"host\" \"print\") (param i32)) \
            (func $f (param $a i32) (param $b i32) (result i32) \
            get_local $a \
            get_local $b \
            i32.add) \
            (func (export \"main\") \
            i32.const 2 \
            i32.const 3 \
            call $f \
            call $print))";
    assert_eq!(module_text("def f(a, b):\n  return a + b\nprint f(2, 3)"), expected);
}

#[test]
fn compile_if_else() {
    let expected = "(module \
            (func $print (import \"host\" \"print\") (param i32)) \
            (func $f (param $a i32) (result i32) \
            get_local $a \
            i32.const 5 \
            i32.lt_s \
            if (result i32) \
            i32.const 0 \
            else \
            i32.const 1 \
            end) \
            (func (export \"main\") \
            i32.const 1 \
            call $f \
            call $print))";
    assert_eq!(module_text("def f(a):\n  if a < 5:\n    return 0\n  else:\n    return 1\nprint f(1)"), expected);
}

#[test]
fn compile_elif() {
    let expected = "(module \
            (func $print (import \"host\" \"print\") (param i32)) \
            (func $f (param $n i32) (result i32) \
                get_local $n \
                i32.const 5 \
                i32.lt_s \
                if (result i32) \
                    i32.const 0 \
                else \
                    get_local $n \
                    i32.const 10 \
                    i32.lt_s \
                    if (result i32) \
                        i32.const 1 \
                    else \
                        get_local $n \
                        i32.const 15 \
                        i32.lt_s \
                        if (result i32) \
                            i32.const 2 \
                        else \
                            i32.const 3 \
                        end \
                    end \
                end) \
            (func (export \"main\") \
                i32.const 4 \
                call $f \
                call $print \
                i32.const 8 \
                call $f \
                call $print \
                i32.const 81 \
                call $f \
                call $print))";
    assert_eq!(module_text("def f(n):\n if n < 5:\n  return 0\n elif n < 10:\n  return 1\n elif n < 15:\
        \n  return 2  \n else:\n  return 3\nprint f(4)\nprint f(8)\nprint f(81)"), expected);
}

#[test]
fn compile_fib() {
    let expected = "(module \
            (func $print (import \"host\" \"print\") (param i32)) \
            (func $fib (param $n i32) (result i32) \
            get_local $n \
            i32.const 2 \
            i32.lt_s \
            if (result i32) \
            get_local $n \
            else \
            get_local $n \
            i32.const 2 \
            i32.sub \
            call $fib \
            get_local $n \
            i32.const 1 \
            i32.sub \
            call $fib \
            i32.add \
            end) \
            (func (export \"main\") \
            i32.const 4 \
            call $fib \
            call $print))";
    assert_eq!(module_text("def fib(n):\n  if n < 2:\n    return n\n  else:\n    return fib(n - 2) + fib(n - 1)\nprint fib(4)"), expected);
}

#[test]
fn compile_print_sum() {
    let expected = "(module (func $print (import \"host\" \"print\") (param i32)) \
        (func (export \"main\") i32.const 1 i32.const 2 i32.add call $print))";
    assert_eq!(module_text("print 1 + 2"), expected);
}

#[test]
fn compile_twice_gives_the_same_text() {
    let source = "def f(a):\n  if a < 5:\n    return 0\n  else:\n    return 1\nprint f(1)";
    assert_eq!(module_text(source), module_text(source));
    assert_eq!(compile("print =").unwrap_err(), compile("print =").unwrap_err());
}

#[test]
fn compile_reports_lexer_errors() {
    assert_eq!(compile("print $").unwrap_err(), Error::UnexpectedStartOfToken('$'));
    assert_eq!(compile("print 1 = 2").unwrap_err(), Error::UnexpectedCharacter(Some(' ')));
    assert_eq!(compile("print 1 !").unwrap_err(), Error::UnexpectedCharacter(None));
    assert_eq!(compile("\\h").unwrap_err(), Error::UnpairedBackslash(Some('h')));
    assert_eq!(compile("  print 1\n print 2").unwrap_err(), Error::UnmatchedIndentationLevel(1));
}

#[test]
fn compile_reports_parser_errors() {
    let colon = Token { kind: TokenKind::Colon, lexeme: ":".to_owned() };
    assert_eq!(compile("def f(a, b, c:\n  print 0").unwrap_err(), Error::UnexpectedToken(colon));
    let seven = Token { kind: TokenKind::Integer, lexeme: "7".to_owned() };
    assert_eq!(compile("7").unwrap_err(), Error::UnexpectedToken(seven));
}

#[test]
fn try_compile_agrees_with_compile() {
    let source = "def f(a, b):\n  return a + b\nprint f(2, 3)";
    assert_eq!(try_compile(source).unwrap().to_string(), module_text(source));
    assert_eq!(
        try_compile("print $").unwrap_err(),
        Failure::Rejected(Error::UnexpectedStartOfToken('$'))
    );
}

#[test]
fn try_compile_tells_a_stream_that_ends_early() {
    assert_eq!(try_compile("def f").unwrap_err(), Failure::Malformed);
    assert_eq!(try_compile("print f(1").unwrap_err(), Failure::Malformed);
    assert_eq!(try_compile("if a").unwrap_err(), Failure::Malformed);
}
