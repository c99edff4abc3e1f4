//! The recursive-descent parser, and the function it computes.
//!
//! The grammar, from the top down; every binary level nests to the right:
//!
//! ```text
//! body       := (statement | NEWLINE)* (DEDENT | EOF)
//! statement  := PRINT expr | RETURN expr | DEF def_tail | IF if_tail
//! def_tail   := IDENT '(' params? ')' block
//! if_tail    := expr block (ELIF expr block)* (ELSE block)?
//! block      := ':' NEWLINE INDENT body
//! expr       := comparison ((AND|OR) expr)?
//! comparison := term ((==|!=|<|>|<=|>=) comparison)?
//! term       := product ((+|-) term)?
//! product    := primary ((*|/|%) product)?
//! primary    := value | IDENT '(' args? ')'
//! value      := INTEGER | IDENT | '(' expr ')'
//! ```
use vstd::prelude::*;
use crate::error::{Error, ErrorView};
use crate::program::{
    binary,
    branch_views,
    expression_views,
    lemma_branch_views_push,
    lemma_expression_views_push,
    lemma_name_views_push,
    lemma_statement_views_push,
    name_views,
    statement_views,
    BinaryOp,
    Body,
    Expression,
    ExpressionView,
    Program,
    Statement,
    StatementView,
    Value,
    ValueView,
};
use crate::text::{decimal_value, read_decimal};
use crate::token::{Token, TokenKind, TokenView, token_views};

verus! {

/// What parsing from some token onward comes to.
pub enum Parsed<T> {
    /// A value, and the index of the token that is current after it.
    Done { value: T, next: nat },
    /// The grammar does not admit the tokens.
    Rejected(ErrorView),
    /// The stream itself is broken: it ended where the parser had to move
    /// on, or tokens were left over after the program.
    Malformed,
}

impl<T> Parsed<T> {
    /// This failure, as the outcome of parsing something else.
    pub open spec fn failure<U>(self) -> Parsed<U> {
        match self {
            Parsed::Rejected(e) => Parsed::Rejected(e),
            _ => Parsed::Malformed,
        }
    }
}

/// `p`, given that it ends after `pos` and within a stream of `len` tokens.
///
/// Every part of the grammar that this is applied to consumes at least one
/// token and stops at a token (the `forward` lemmas below), so it changes
/// nothing; stating it where one part follows another shows that the
/// recursion ends.
pub open spec fn continuing<T>(p: Parsed<T>, pos: nat, len: nat) -> Parsed<T> {
    match p {
        Parsed::Done { value, next } => if pos < next < len {
            p
        } else {
            Parsed::Malformed
        },
        _ => p,
    }
}

/// The unit value after moving past the token at `pos`, which must not be the last.
pub open spec fn advance(ts: Seq<TokenView>, pos: nat) -> Parsed<()> {
    if pos + 1 < ts.len() {
        Parsed::Done { value: (), next: pos + 1 }
    } else {
        Parsed::Malformed
    }
}

/// Moves past the token at `pos` and yields it if it is of the given kind.
pub open spec fn expect(ts: Seq<TokenView>, pos: nat, kind: TokenKind) -> Parsed<TokenView> {
    if pos + 1 >= ts.len() {
        Parsed::Malformed
    } else if ts[pos as int].kind == kind {
        Parsed::Done { value: ts[pos as int], next: pos + 1 }
    } else {
        Parsed::Rejected(ErrorView::UnexpectedToken(ts[pos as int]))
    }
}

/// The operator that a token of the given kind is at a level of the
/// grammar: `0` for products, `1` for terms, `2` for comparisons and `3`
/// for whole expressions.
pub open spec fn operator_at(level: nat, kind: TokenKind) -> Option<BinaryOp> {
    if level == 0 {
        match kind {
            TokenKind::Mult => Some(BinaryOp::Mult),
            TokenKind::Div => Some(BinaryOp::Div),
            TokenKind::Mod => Some(BinaryOp::Mod),
            _ => None,
        }
    } else if level == 1 {
        match kind {
            TokenKind::Plus => Some(BinaryOp::Add),
            TokenKind::Minus => Some(BinaryOp::Sub),
            _ => None,
        }
    } else if level == 2 {
        match kind {
            TokenKind::EqEq => Some(BinaryOp::EqEq),
            TokenKind::Ne => Some(BinaryOp::Ne),
            TokenKind::Lt => Some(BinaryOp::Lt),
            TokenKind::Gt => Some(BinaryOp::Gt),
            TokenKind::Leq => Some(BinaryOp::Leq),
            TokenKind::Geq => Some(BinaryOp::Geq),
            _ => None,
        }
    } else {
        match kind {
            TokenKind::And => Some(BinaryOp::And),
            TokenKind::Or => Some(BinaryOp::Or),
            _ => None,
        }
    }
}

/// `value := INTEGER | IDENT | '(' expr ')'`
pub open spec fn parse_value(ts: Seq<TokenView>, pos: nat) -> Parsed<ValueView>
    decreases ts.len() - pos, 0nat,
{
    let token = ts[pos as int];
    match token.kind {
        TokenKind::Integer => match advance(ts, pos) {
            Parsed::Done { next, .. } => Parsed::Done {
                value: ValueView::Integer(decimal_value(token.lexeme)),
                next,
            },
            failure => failure.failure(),
        },
        TokenKind::Identifier => match advance(ts, pos) {
            Parsed::Done { next, .. } => Parsed::Done { value: ValueView::Variable(token.lexeme), next },
            failure => failure.failure(),
        },
        TokenKind::ParenL => match advance(ts, pos) {
            Parsed::Done { next: inside, .. } => match parse_level(ts, inside, 3) {
                Parsed::Done { value: inner, next: closing } => match expect(
                    ts,
                    closing,
                    TokenKind::ParenR,
                ) {
                    Parsed::Done { next, .. } => Parsed::Done {
                        value: ValueView::Complex(Box::new(inner)),
                        next,
                    },
                    failure => failure.failure(),
                },
                failure => failure.failure(),
            },
            failure => failure.failure(),
        },
        _ => Parsed::Rejected(ErrorView::UnexpectedToken(token)),
    }
}

/// `primary := value | IDENT '(' args? ')'`: a value that is a name and is
/// followed by `(` is the callee of a call; any other value followed by `(`
/// is rejected at that token.
pub open spec fn parse_primary(ts: Seq<TokenView>, pos: nat) -> Parsed<ExpressionView>
    decreases ts.len() - pos, 1nat,
{
    match continuing(parse_value(ts, pos), pos, ts.len()) {
        Parsed::Done { value, next } => if ts[next as int].kind == TokenKind::ParenL {
            match value {
                ValueView::Variable(name) => parse_call(ts, next, name),
                _ => Parsed::Rejected(ErrorView::UnexpectedToken(ts[next as int])),
            }
        } else {
            Parsed::Done { value: ExpressionView::Simple(value), next }
        },
        failure => failure.failure(),
    }
}

/// The call of `name` whose opening parenthesis is at `pos`.
pub open spec fn parse_call(ts: Seq<TokenView>, pos: nat, name: Seq<char>) -> Parsed<ExpressionView>
    decreases ts.len() - pos, 7nat,
{
    match advance(ts, pos) {
        Parsed::Done { next: first, .. } => match parse_args(ts, first, Seq::empty()) {
            Parsed::Done { value: params, next: closing } => match expect(ts, closing, TokenKind::ParenR) {
                Parsed::Done { next, .. } => Parsed::Done { value: ExpressionView::Call { name, params }, next },
                failure => failure.failure(),
            },
            failure => failure.failure(),
        },
        failure => failure.failure(),
    }
}

/// The arguments from `pos` up to, and without, the token that ends them,
/// after the arguments `done`. Each argument is a comparison; a comma may
/// follow the last one.
pub open spec fn parse_args(ts: Seq<TokenView>, pos: nat, done: Seq<ExpressionView>) -> Parsed<
    Seq<ExpressionView>,
>
    decreases ts.len() - pos, 6nat,
{
    if ts[pos as int].kind == TokenKind::ParenR {
        Parsed::Done { value: done, next: pos }
    } else {
        match continuing(parse_level(ts, pos, 2), pos, ts.len()) {
            Parsed::Done { value, next } => if ts[next as int].kind == TokenKind::Comma {
                match advance(ts, next) {
                    Parsed::Done { next: after, .. } => parse_args(ts, after, done.push(value)),
                    failure => failure.failure(),
                }
            } else {
                Parsed::Done { value: done.push(value), next }
            },
            failure => failure.failure(),
        }
    }
}

/// One level of binary operators: an operand of the level below, and, if
/// an operator of this level follows, that operator applied to the operand
/// and to the rest of the level.
pub open spec fn parse_level(ts: Seq<TokenView>, pos: nat, level: nat) -> Parsed<ExpressionView>
    decreases ts.len() - pos, 2 + level,
{
    let operand = if level == 0 {
        parse_primary(ts, pos)
    } else {
        parse_level(ts, pos, (level - 1) as nat)
    };
    match continuing(operand, pos, ts.len()) {
        Parsed::Done { value: left, next } => match operator_at(level, ts[next as int].kind) {
            Some(op) => match advance(ts, next) {
                Parsed::Done { next: after, .. } => match parse_level(ts, after, level) {
                    Parsed::Done { value: right, next: end } => Parsed::Done {
                        value: binary(op, left, right),
                        next: end,
                    },
                    failure => failure,
                },
                failure => failure.failure(),
            },
            None => Parsed::Done { value: left, next },
        },
        failure => failure,
    }
}

/// `product := primary ((*|/|%) product)?`
pub open spec fn parse_product(ts: Seq<TokenView>, pos: nat) -> Parsed<ExpressionView> {
    parse_level(ts, pos, 0)
}

/// `term := product ((+|-) term)?`
pub open spec fn parse_term(ts: Seq<TokenView>, pos: nat) -> Parsed<ExpressionView> {
    parse_level(ts, pos, 1)
}

/// `comparison := term ((==|!=|<|>|<=|>=) comparison)?`
pub open spec fn parse_comparison(ts: Seq<TokenView>, pos: nat) -> Parsed<ExpressionView> {
    parse_level(ts, pos, 2)
}

/// `expr := comparison ((AND|OR) expr)?`
pub open spec fn parse_expression(ts: Seq<TokenView>, pos: nat) -> Parsed<ExpressionView> {
    parse_level(ts, pos, 3)
}

/// The parameter names from `pos` on, after the names `done`: names
/// separated by commas; a comma may follow the last one.
pub open spec fn parse_def_params(ts: Seq<TokenView>, pos: nat, done: Seq<Seq<char>>) -> Parsed<
    Seq<Seq<char>>,
>
    decreases ts.len() - pos,
{
    if ts[pos as int].kind == TokenKind::Identifier {
        match advance(ts, pos) {
            Parsed::Done { next, .. } => if ts[next as int].kind == TokenKind::Comma {
                match advance(ts, next) {
                    Parsed::Done { next: after, .. } => parse_def_params(
                        ts,
                        after,
                        done.push(ts[pos as int].lexeme),
                    ),
                    failure => failure.failure(),
                }
            } else {
                Parsed::Done { value: done.push(ts[pos as int].lexeme), next }
            },
            failure => failure.failure(),
        }
    } else {
        Parsed::Done { value: done, next: pos }
    }
}

/// `IDENT '(' params? ')'`: the name and the parameters of a definition.
pub open spec fn parse_signature(ts: Seq<TokenView>, pos: nat) -> Parsed<(Seq<char>, Seq<Seq<char>>)> {
    match expect(ts, pos, TokenKind::Identifier) {
        Parsed::Done { value: name, next: opening } => match expect(ts, opening, TokenKind::ParenL) {
            Parsed::Done { next: first, .. } => match parse_def_params(ts, first, Seq::empty()) {
                Parsed::Done { value: params, next: closing } => match expect(
                    ts,
                    closing,
                    TokenKind::ParenR,
                ) {
                    Parsed::Done { next, .. } => Parsed::Done { value: (name.lexeme, params), next },
                    failure => failure.failure(),
                },
                failure => failure.failure(),
            },
            failure => failure.failure(),
        },
        failure => failure.failure(),
    }
}

/// `':' NEWLINE INDENT`: what stands between a header and its block.
pub open spec fn parse_block_start(ts: Seq<TokenView>, pos: nat) -> Parsed<()> {
    match expect(ts, pos, TokenKind::Colon) {
        Parsed::Done { next: newline, .. } => match expect(ts, newline, TokenKind::Newline) {
            Parsed::Done { next: indent, .. } => match expect(ts, indent, TokenKind::Indent) {
                Parsed::Done { next, .. } => Parsed::Done { value: (), next },
                failure => failure.failure(),
            },
            failure => failure.failure(),
        },
        failure => failure.failure(),
    }
}

/// `body := (statement | NEWLINE)* (DEDENT | EOF)`, after the statements
/// `done`. The closing `DEDENT` is consumed, the closing `EOF` is not.
pub open spec fn parse_body(ts: Seq<TokenView>, pos: nat, done: Seq<StatementView>) -> Parsed<
    Seq<StatementView>,
>
    decreases ts.len() - pos, 1nat,
{
    match ts[pos as int].kind {
        TokenKind::Eof => Parsed::Done { value: done, next: pos },
        TokenKind::Dedent => match advance(ts, pos) {
            Parsed::Done { next, .. } => Parsed::Done { value: done, next },
            failure => failure.failure(),
        },
        TokenKind::Newline => match advance(ts, pos) {
            Parsed::Done { next, .. } => parse_body(ts, next, done),
            failure => failure.failure(),
        },
        _ => match continuing(parse_statement(ts, pos), pos, ts.len()) {
            Parsed::Done { value, next } => parse_body(ts, next, done.push(value)),
            failure => failure.failure(),
        },
    }
}

/// `statement := PRINT expr | RETURN expr | DEF def_tail | IF if_tail`
pub open spec fn parse_statement(ts: Seq<TokenView>, pos: nat) -> Parsed<StatementView>
    decreases ts.len() - pos, 0nat,
{
    match ts[pos as int].kind {
        TokenKind::Print => match advance(ts, pos) {
            Parsed::Done { next: after, .. } => match parse_expression(ts, after) {
                Parsed::Done { value, next } => Parsed::Done { value: StatementView::Print(value), next },
                failure => failure.failure(),
            },
            failure => failure.failure(),
        },
        TokenKind::Return => match advance(ts, pos) {
            Parsed::Done { next: after, .. } => match parse_expression(ts, after) {
                Parsed::Done { value, next } => Parsed::Done { value: StatementView::Return(value), next },
                failure => failure.failure(),
            },
            failure => failure.failure(),
        },
        TokenKind::Def => match advance(ts, pos) {
            Parsed::Done { next: after, .. } => parse_def(ts, after),
            failure => failure.failure(),
        },
        TokenKind::If => match advance(ts, pos) {
            Parsed::Done { next: after, .. } => parse_if(ts, after),
            failure => failure.failure(),
        },
        _ => Parsed::Rejected(ErrorView::UnexpectedToken(ts[pos as int])),
    }
}

/// `block := ':' NEWLINE INDENT body`
pub open spec fn parse_block(ts: Seq<TokenView>, pos: nat) -> Parsed<Seq<StatementView>>
    decreases ts.len() - pos, 2nat,
{
    match parse_block_start(ts, pos) {
        Parsed::Done { next, .. } => parse_body(ts, next, Seq::empty()),
        failure => failure.failure(),
    }
}

/// `def_tail := IDENT '(' params? ')' block`
pub open spec fn parse_def(ts: Seq<TokenView>, pos: nat) -> Parsed<StatementView>
    decreases ts.len() - pos, 2nat,
{
    match continuing(parse_signature(ts, pos), pos, ts.len()) {
        Parsed::Done { value: (name, params), next: colon } => match parse_block(ts, colon) {
            Parsed::Done { value: body, next } => Parsed::Done {
                value: StatementView::Def { name, params, body },
                next,
            },
            failure => failure.failure(),
        },
        failure => failure.failure(),
    }
}

/// `if_tail := expr block (ELIF expr block)* (ELSE block)?`
pub open spec fn parse_if(ts: Seq<TokenView>, pos: nat) -> Parsed<StatementView>
    decreases ts.len() - pos, 2nat,
{
    match continuing(parse_expression(ts, pos), pos, ts.len()) {
        Parsed::Done { value: condition, next: colon } => match continuing(
            parse_block(ts, colon),
            pos,
            ts.len(),
        ) {
            Parsed::Done { value: body, next: after } => match continuing(
                parse_elif(ts, after, Seq::empty()),
                pos,
                ts.len(),
            ) {
                Parsed::Done { value: elif, next: last } => match parse_else(ts, last) {
                    Parsed::Done { value: else_body, next } => Parsed::Done {
                        value: StatementView::If { condition, body, elif, else_body },
                        next,
                    },
                    failure => failure.failure(),
                },
                failure => failure.failure(),
            },
            failure => failure.failure(),
        },
        failure => failure.failure(),
    }
}

/// `(ELIF expr block)*`, after the branches `done`.
pub open spec fn parse_elif(
    ts: Seq<TokenView>,
    pos: nat,
    done: Seq<(ExpressionView, Seq<StatementView>)>,
) -> Parsed<Seq<(ExpressionView, Seq<StatementView>)>>
    decreases ts.len() - pos, 2nat,
{
    if ts[pos as int].kind == TokenKind::Elif {
        match advance(ts, pos) {
            Parsed::Done { next: after, .. } => match continuing(
                parse_expression(ts, after),
                pos,
                ts.len(),
            ) {
                Parsed::Done { value: condition, next: colon } => match continuing(
                    parse_block(ts, colon),
                    pos,
                    ts.len(),
                ) {
                    Parsed::Done { value: body, next } => parse_elif(
                        ts,
                        next,
                        done.push((condition, body)),
                    ),
                    failure => failure.failure(),
                },
                failure => failure.failure(),
            },
            failure => failure.failure(),
        }
    } else {
        Parsed::Done { value: done, next: pos }
    }
}

/// `(ELSE block)?`
pub open spec fn parse_else(ts: Seq<TokenView>, pos: nat) -> Parsed<Option<Seq<StatementView>>>
    decreases ts.len() - pos, 2nat,
{
    if ts[pos as int].kind == TokenKind::Else {
        match advance(ts, pos) {
            Parsed::Done { next: colon, .. } => match parse_block(ts, colon) {
                Parsed::Done { value: body, next } => Parsed::Done { value: Some(body), next },
                failure => failure.failure(),
            },
            failure => failure.failure(),
        }
    } else {
        Parsed::Done { value: None, next: pos }
    }
}

/// The program that the whole of `ts` spells: a body that ends exactly at
/// the last token, which is `Eof`.
pub open spec fn parse(ts: Seq<TokenView>) -> Parsed<Seq<StatementView>> {
    match parse_body(ts, 0, Seq::empty()) {
        Parsed::Done { value, next } => if next + 1 != ts.len() {
            Parsed::Malformed
        } else if ts[next as int].kind == TokenKind::Eof {
            Parsed::Done { value, next }
        } else {
            Parsed::Rejected(ErrorView::UnexpectedToken(ts[next as int]))
        },
        failure => failure,
    }
}

/// `p` ends at a token of a stream of `len` tokens, after `pos`.
pub open spec fn forward<T>(p: Parsed<T>, pos: nat, len: nat) -> bool {
    p matches Parsed::Done { next, .. } ==> pos < next < len
}

/// `p` ends at a token of a stream of `len` tokens, at or after `pos`.
pub open spec fn not_backward<T>(p: Parsed<T>, pos: nat, len: nat) -> bool {
    p matches Parsed::Done { next, .. } ==> pos <= next < len
}

/// A value consumes at least one token and stops at a token.
pub proof fn lemma_value_forward(ts: Seq<TokenView>, pos: nat)
    requires
        pos < ts.len(),
    ensures
        forward(parse_value(ts, pos), pos, ts.len()),
    decreases ts.len() - pos, 0nat,
{
    if ts[pos as int].kind == TokenKind::ParenL && pos + 1 < ts.len() {
        lemma_level_forward(ts, pos + 1, 3);
    }
}

/// A primary consumes at least one token and stops at a token.
pub proof fn lemma_primary_forward(ts: Seq<TokenView>, pos: nat)
    requires
        pos < ts.len(),
    ensures
        forward(parse_primary(ts, pos), pos, ts.len()),
    decreases ts.len() - pos, 1nat,
{
    lemma_value_forward(ts, pos);
    if let Parsed::Done { value: ValueView::Variable(name), next } = parse_value(ts, pos) {
        lemma_call_forward(ts, next, name);
    }
}

/// A call consumes at least one token and stops at a token.
pub proof fn lemma_call_forward(ts: Seq<TokenView>, pos: nat, name: Seq<char>)
    requires
        pos < ts.len(),
    ensures
        forward(parse_call(ts, pos, name), pos, ts.len()),
    decreases ts.len() - pos, 7nat,
{
    if pos + 1 < ts.len() {
        lemma_args_forward(ts, pos + 1, Seq::empty());
    }
}

/// Arguments stop at a token.
pub proof fn lemma_args_forward(ts: Seq<TokenView>, pos: nat, done: Seq<ExpressionView>)
    requires
        pos < ts.len(),
    ensures
        not_backward(parse_args(ts, pos, done), pos, ts.len()),
    decreases ts.len() - pos, 6nat,
{
    if ts[pos as int].kind != TokenKind::ParenR {
        lemma_level_forward(ts, pos, 2);
        if let Parsed::Done { value, next } = parse_level(ts, pos, 2) {
            if ts[next as int].kind == TokenKind::Comma && next + 1 < ts.len() {
                lemma_args_forward(ts, next + 1, done.push(value));
            }
        }
    }
}

/// Every level of binary operators consumes at least one token and stops
/// at a token.
pub proof fn lemma_level_forward(ts: Seq<TokenView>, pos: nat, level: nat)
    requires
        pos < ts.len(),
    ensures
        forward(parse_level(ts, pos, level), pos, ts.len()),
    decreases ts.len() - pos, 2 + level,
{
    let operand = if level == 0 {
        lemma_primary_forward(ts, pos);
        parse_primary(ts, pos)
    } else {
        lemma_level_forward(ts, pos, (level - 1) as nat);
        parse_level(ts, pos, (level - 1) as nat)
    };
    if let Parsed::Done { next, .. } = operand {
        if operator_at(level, ts[next as int].kind) is Some && next + 1 < ts.len() {
            lemma_level_forward(ts, next + 1, level);
        }
    }
}

/// Parameter names stop at a token.
pub proof fn lemma_def_params_forward(ts: Seq<TokenView>, pos: nat, done: Seq<Seq<char>>)
    requires
        pos < ts.len(),
    ensures
        not_backward(parse_def_params(ts, pos, done), pos, ts.len()),
    decreases ts.len() - pos,
{
    if ts[pos as int].kind == TokenKind::Identifier && pos + 2 < ts.len() && ts[pos as int + 1].kind
        == TokenKind::Comma {
        lemma_def_params_forward(ts, pos + 2, done.push(ts[pos as int].lexeme));
    }
}

/// A signature consumes at least one token and stops at a token.
pub proof fn lemma_signature_forward(ts: Seq<TokenView>, pos: nat)
    requires
        pos < ts.len(),
    ensures
        forward(parse_signature(ts, pos), pos, ts.len()),
{
    if pos + 2 < ts.len() {
        lemma_def_params_forward(ts, pos + 2, Seq::empty());
    }
}

/// A body stops at a token.
pub proof fn lemma_body_forward(ts: Seq<TokenView>, pos: nat, done: Seq<StatementView>)
    requires
        pos < ts.len(),
    ensures
        not_backward(parse_body(ts, pos, done), pos, ts.len()),
    decreases ts.len() - pos, 1nat,
{
    match ts[pos as int].kind {
        TokenKind::Eof => {},
        TokenKind::Dedent => {},
        TokenKind::Newline => {
            if pos + 1 < ts.len() {
                lemma_body_forward(ts, pos + 1, done);
            }
        },
        _ => {
            lemma_statement_forward(ts, pos);
            if let Parsed::Done { value, next } = parse_statement(ts, pos) {
                lemma_body_forward(ts, next, done.push(value));
            }
        },
    }
}

/// A statement consumes at least one token and stops at a token.
pub proof fn lemma_statement_forward(ts: Seq<TokenView>, pos: nat)
    requires
        pos < ts.len(),
    ensures
        forward(parse_statement(ts, pos), pos, ts.len()),
    decreases ts.len() - pos, 0nat,
{
    if pos + 1 < ts.len() {
        match ts[pos as int].kind {
            TokenKind::Print => lemma_level_forward(ts, pos + 1, 3),
            TokenKind::Return => lemma_level_forward(ts, pos + 1, 3),
            TokenKind::Def => lemma_def_forward(ts, pos + 1),
            TokenKind::If => lemma_if_forward(ts, pos + 1),
            _ => {},
        }
    }
}

/// A block consumes at least one token and stops at a token.
pub proof fn lemma_block_forward(ts: Seq<TokenView>, pos: nat)
    requires
        pos < ts.len(),
    ensures
        forward(parse_block(ts, pos), pos, ts.len()),
    decreases ts.len() - pos, 2nat,
{
    if let Parsed::Done { next, .. } = parse_block_start(ts, pos) {
        lemma_body_forward(ts, next, Seq::empty());
    }
}

/// A definition consumes at least one token and stops at a token.
pub proof fn lemma_def_forward(ts: Seq<TokenView>, pos: nat)
    requires
        pos < ts.len(),
    ensures
        forward(parse_def(ts, pos), pos, ts.len()),
    decreases ts.len() - pos, 2nat,
{
    lemma_signature_forward(ts, pos);
    if let Parsed::Done { next, .. } = parse_signature(ts, pos) {
        lemma_block_forward(ts, next);
    }
}

/// A conditional consumes at least one token and stops at a token.
pub proof fn lemma_if_forward(ts: Seq<TokenView>, pos: nat)
    requires
        pos < ts.len(),
    ensures
        forward(parse_if(ts, pos), pos, ts.len()),
    decreases ts.len() - pos, 2nat,
{
    lemma_level_forward(ts, pos, 3);
    if let Parsed::Done { next: colon, .. } = parse_expression(ts, pos) {
        lemma_block_forward(ts, colon);
        if let Parsed::Done { next: after, .. } = parse_block(ts, colon) {
            lemma_elif_forward(ts, after, Seq::empty());
            if let Parsed::Done { next: last, .. } = parse_elif(ts, after, Seq::empty()) {
                lemma_else_forward(ts, last);
            }
        }
    }
}

/// `elif` branches stop at a token.
pub proof fn lemma_elif_forward(
    ts: Seq<TokenView>,
    pos: nat,
    done: Seq<(ExpressionView, Seq<StatementView>)>,
)
    requires
        pos < ts.len(),
    ensures
        not_backward(parse_elif(ts, pos, done), pos, ts.len()),
    decreases ts.len() - pos, 2nat,
{
    if ts[pos as int].kind == TokenKind::Elif && pos + 1 < ts.len() {
        lemma_level_forward(ts, pos + 1, 3);
        if let Parsed::Done { value: condition, next: colon } = parse_expression(ts, pos + 1) {
            lemma_block_forward(ts, colon);
            if let Parsed::Done { value: body, next } = parse_block(ts, colon) {
                lemma_elif_forward(ts, next, done.push((condition, body)));
            }
        }
    }
}

/// An `else` branch stops at a token.
pub proof fn lemma_else_forward(ts: Seq<TokenView>, pos: nat)
    requires
        pos < ts.len(),
    ensures
        not_backward(parse_else(ts, pos), pos, ts.len()),
    decreases ts.len() - pos, 2nat,
{
    if ts[pos as int].kind == TokenKind::Else && pos + 1 < ts.len() {
        lemma_block_forward(ts, pos + 1);
    }
}

/// The level of the grammar at which `op` is an operator.
pub open spec fn level_of(op: BinaryOp) -> int {
    match op {
        BinaryOp::Mult | BinaryOp::Div | BinaryOp::Mod => 0,
        BinaryOp::Add | BinaryOp::Sub => 1,
        BinaryOp::EqEq | BinaryOp::Ne | BinaryOp::Lt | BinaryOp::Gt | BinaryOp::Leq | BinaryOp::Geq => 2,
        BinaryOp::And | BinaryOp::Or => 3,
    }
}

/// `e` has the shape that level `level` of the grammar yields, `-1`
/// standing for a primary: an operator is of that level or a lower one,
/// its left operand is of the shape of the level below its own, and its
/// right operand of the shape of its own level. Arguments are comparisons,
/// and what stands in parentheses is a whole expression.
pub open spec fn fits(e: ExpressionView, level: int) -> bool
    decreases e,
{
    match e {
        ExpressionView::Binary { op, left, right } => {
            &&& level_of(op) <= level
            &&& fits(*left, level_of(op) - 1)
            &&& fits(*right, level_of(op))
        },
        ExpressionView::Call { params, .. } => forall|i: int|
            0 <= i < params.len() ==> fits(#[trigger] params[i], 2),
        ExpressionView::Simple(ValueView::Complex(inner)) => fits(*inner, 3),
        ExpressionView::Simple(_) => true,
    }
}

/// What stands in parentheses has the shape of a whole expression.
pub proof fn lemma_value_shape(ts: Seq<TokenView>, pos: nat)
    requires
        pos < ts.len(),
    ensures
        parse_value(ts, pos) matches Parsed::Done { value, .. } ==> fits(
            ExpressionView::Simple(value),
            -1,
        ),
    decreases ts.len() - pos, 0nat,
{
    if ts[pos as int].kind == TokenKind::ParenL && pos + 1 < ts.len() {
        lemma_level_shape(ts, pos + 1, 3);
    }
}

/// A primary is a value or a call, never a bare operator.
pub proof fn lemma_primary_shape(ts: Seq<TokenView>, pos: nat)
    requires
        pos < ts.len(),
    ensures
        parse_primary(ts, pos) matches Parsed::Done { value, .. } ==> fits(value, -1),
    decreases ts.len() - pos, 1nat,
{
    lemma_value_shape(ts, pos);
    lemma_value_forward(ts, pos);
    if let Parsed::Done { value: ValueView::Variable(name), next } = parse_value(ts, pos) {
        if next + 1 < ts.len() {
            lemma_args_shape(ts, next + 1, Seq::empty());
        }
    }
}

/// Every argument of a call has the shape of a comparison.
pub proof fn lemma_args_shape(ts: Seq<TokenView>, pos: nat, done: Seq<ExpressionView>)
    requires
        pos < ts.len(),
        forall|i: int| 0 <= i < done.len() ==> fits(#[trigger] done[i], 2),
    ensures
        parse_args(ts, pos, done) matches Parsed::Done { value, .. } ==> forall|i: int|
            0 <= i < value.len() ==> fits(#[trigger] value[i], 2),
    decreases ts.len() - pos, 6nat,
{
    if ts[pos as int].kind != TokenKind::ParenR {
        lemma_level_shape(ts, pos, 2);
        lemma_level_forward(ts, pos, 2);
        if let Parsed::Done { value, next } = parse_level(ts, pos, 2) {
            if ts[next as int].kind == TokenKind::Comma && next + 1 < ts.len() {
                lemma_args_shape(ts, next + 1, done.push(value));
            }
        }
    }
}

/// Precedence and associativity: what a level of the grammar yields has
/// the shape of that level. So an operator never has an operator of its own
/// or of a higher level as its left operand, which makes every level nest
/// to the right, and never one of a higher level as its right operand.
pub proof fn lemma_level_shape(ts: Seq<TokenView>, pos: nat, level: nat)
    requires
        pos < ts.len(),
        level <= 3,
    ensures
        parse_level(ts, pos, level) matches Parsed::Done { value, .. } ==> fits(value, level as int),
    decreases ts.len() - pos, 2 + level,
{
    let operand = if level == 0 {
        lemma_primary_shape(ts, pos);
        lemma_primary_forward(ts, pos);
        parse_primary(ts, pos)
    } else {
        lemma_level_shape(ts, pos, (level - 1) as nat);
        lemma_level_forward(ts, pos, (level - 1) as nat);
        parse_level(ts, pos, (level - 1) as nat)
    };
    if let Parsed::Done { value: left, next } = operand {
        lemma_fits_higher(left, level as int - 1, level as int);
        if let Some(op) = operator_at(level, ts[next as int].kind) {
            if next + 1 < ts.len() {
                lemma_level_shape(ts, next + 1, level);
                assert(level_of(op) == level);
            }
        }
    }
}

/// What has the shape of a level has the shape of every higher level.
pub proof fn lemma_fits_higher(e: ExpressionView, level: int, other: int)
    requires
        fits(e, level),
        level <= other,
    ensures
        fits(e, other),
{
}

/// Why the parser stopped without a value.
#[derive(Debug, PartialEq)]
pub enum Failure {
    /// The grammar does not admit the tokens.
    Rejected(Error),
    /// The stream itself is broken: it ended where the parser had to move
    /// on, or tokens were left over after the program.
    Malformed,
}

/// `failure` is how `outcome` failed.
pub open spec fn halted<T>(failure: Failure, outcome: Parsed<T>) -> bool {
    match failure {
        Failure::Rejected(e) => outcome == Parsed::<T>::Rejected(e@),
        Failure::Malformed => outcome is Malformed,
    }
}

/// A cursor over a sequence of tokens.
pub struct Parser {
    tokens: Vec<Token>,
    /// Index of the current token.
    pos: usize,
}

impl Parser {
    /// The tokens that this parser reads.
    pub closed spec fn tokens(&self) -> Seq<TokenView> {
        token_views(self.tokens@)
    }

    /// The index of the current token.
    pub closed spec fn position(&self) -> nat {
        self.pos as nat
    }

    /// There is a current token.
    pub closed spec fn well_formed(&self) -> bool {
        self.pos < self.tokens.len()
    }

    /// This parser reads the tokens of `before` and stands no earlier.
    spec fn follows(&self, before: &Parser) -> bool {
        &&& self.well_formed()
        &&& self.tokens == before.tokens
        &&& before.pos <= self.pos
    }

    /// A parser at the first of `tokens`.
    pub fn new(tokens: Vec<Token>) -> (parser: Parser)
        requires
            tokens.len() > 0,
        ensures
            parser.well_formed(),
            parser.tokens() == token_views(tokens@),
            parser.position() == 0,
    {
        Parser { tokens, pos: 0 }
    }

    /// The kind of the current token.
    fn kind(&self) -> (kind: TokenKind)
        requires
            self.well_formed(),
        ensures
            kind == self.tokens()[self.position() as int].kind,
    {
        self.tokens[self.pos].kind
    }

    /// Moves to the next token; there must be one.
    fn next(&mut self) -> (r: Result<(), Failure>)
        requires
            old(self).well_formed(),
        ensures
            final(self).follows(old(self)),
            match r {
                Ok(()) => advance(old(self).tokens(), old(self).position()) == (Parsed::Done {
                    value: (),
                    next: final(self).position(),
                }),
                Err(failure) => halted(failure, advance(old(self).tokens(), old(self).position())),
            },
    {
        if self.pos + 1 < self.tokens.len() {
            self.pos = self.pos + 1;
            Ok(())
        } else {
            Err(Failure::Malformed)
        }
    }

    /// Moves past the current token and returns it if it is of the given kind.
    fn expect(&mut self, kind: TokenKind) -> (r: Result<Token, Failure>)
        requires
            old(self).well_formed(),
        ensures
            final(self).follows(old(self)),
            match r {
                Ok(token) => expect(old(self).tokens(), old(self).position(), kind) == (Parsed::Done {
                    value: token@,
                    next: final(self).position(),
                }),
                Err(failure) => halted(failure, expect(old(self).tokens(), old(self).position(), kind)),
            },
    {
        let token = self.tokens[self.pos].duplicate();
        self.next()?;
        if token.kind == kind {
            Ok(token)
        } else {
            Err(Failure::Rejected(Error::UnexpectedToken(token)))
        }
    }

    /// `value := INTEGER | IDENT | '(' expr ')'`
    fn parse_value(&mut self) -> (r: Result<Value, Failure>)
        requires
            old(self).well_formed(),
        ensures
            final(self).follows(old(self)),
            match r {
                Ok(value) => old(self).pos < final(self).pos && parse_value(
                    old(self).tokens(),
                    old(self).position(),
                ) == (Parsed::Done { value: value@, next: final(self).position() }),
                Err(failure) => halted(failure, parse_value(old(self).tokens(), old(self).position())),
            },
        decreases old(self).tokens.len() - old(self).pos, 0nat,
    {
        match self.kind() {
            TokenKind::Integer => {
                let number = read_decimal(self.tokens[self.pos].lexeme.as_str());
                self.next()?;
                Ok(Value::Integer(number))
            },
            TokenKind::Identifier => {
                let name = self.tokens[self.pos].lexeme.clone();
                self.next()?;
                Ok(Value::Variable(name))
            },
            TokenKind::ParenL => {
                self.next()?;
                let inner = self.parse_expression()?;
                self.expect(TokenKind::ParenR)?;
                Ok(Value::Complex(Box::new(inner)))
            },
            _ => Err(Failure::Rejected(Error::UnexpectedToken(self.tokens[self.pos].duplicate()))),
        }
    }

    /// `primary := value | IDENT '(' args? ')'`
    fn parse_primary(&mut self) -> (r: Result<Expression, Failure>)
        requires
            old(self).well_formed(),
        ensures
            final(self).follows(old(self)),
            match r {
                Ok(value) => old(self).pos < final(self).pos && parse_primary(
                    old(self).tokens(),
                    old(self).position(),
                ) == (Parsed::Done { value: value@, next: final(self).position() }),
                Err(failure) => halted(failure, parse_primary(old(self).tokens(), old(self).position())),
            },
        decreases old(self).tokens.len() - old(self).pos, 1nat,
    {
        let value = self.parse_value()?;
        match self.kind() {
            TokenKind::ParenL => match value {
                Value::Variable(name) => self.parse_call(name),
                _ => Err(Failure::Rejected(Error::UnexpectedToken(self.tokens[self.pos].duplicate()))),
            },
            _ => Ok(Expression::Simple(value)),
        }
    }

    /// The call of `name`, from its opening parenthesis on.
    fn parse_call(&mut self, name: String) -> (r: Result<Expression, Failure>)
        requires
            old(self).well_formed(),
        ensures
            final(self).follows(old(self)),
            match r {
                Ok(value) => old(self).pos < final(self).pos && parse_call(
                    old(self).tokens(),
                    old(self).position(),
                    name@,
                ) == (Parsed::Done { value: value@, next: final(self).position() }),
                Err(failure) => halted(
                    failure,
                    parse_call(old(self).tokens(), old(self).position(), name@),
                ),
            },
        decreases old(self).tokens.len() - old(self).pos, 7nat,
    {
        self.next()?;
        let ghost first = self.position();
        let mut params: Vec<Expression> = Vec::new();
        while self.kind() != TokenKind::ParenR
            invariant_except_break
                parse_args(self.tokens(), first, Seq::empty()) == parse_args(
                    self.tokens(),
                    self.position(),
                    expression_views(params@),
                ),
            invariant
                self.follows(old(self)),
                old(self).pos < self.pos,
                first == old(self).pos + 1,
            ensures
                parse_args(self.tokens(), first, Seq::empty()) == (Parsed::Done {
                    value: expression_views(params@),
                    next: self.position(),
                }),
            decreases self.tokens.len() - self.pos,
        {
            let param = self.parse_comparison()?;
            proof {
                lemma_expression_views_push(params@, param);
            }
            params.push(param);
            match self.kind() {
                TokenKind::Comma => {
                    self.next()?;
                },
                _ => {
                    break ;
                },
            }
        }
        self.expect(TokenKind::ParenR)?;
        Ok(Expression::Call { name, params })
    }

    /// `product := primary ((*|/|%) product)?`
    fn parse_product(&mut self) -> (r: Result<Expression, Failure>)
        requires
            old(self).well_formed(),
        ensures
            final(self).follows(old(self)),
            match r {
                Ok(value) => old(self).pos < final(self).pos && parse_product(
                    old(self).tokens(),
                    old(self).position(),
                ) == (Parsed::Done { value: value@, next: final(self).position() }),
                Err(failure) => halted(failure, parse_product(old(self).tokens(), old(self).position())),
            },
        decreases old(self).tokens.len() - old(self).pos, 2nat,
    {
        let left = self.parse_primary()?;
        match self.kind() {
            TokenKind::Mult => {
                self.next()?;
                let right = self.parse_product()?;
                Ok(Expression::Mult(Box::new(left), Box::new(right)))
            },
            TokenKind::Div => {
                self.next()?;
                let right = self.parse_product()?;
                Ok(Expression::Div(Box::new(left), Box::new(right)))
            },
            TokenKind::Mod => {
                self.next()?;
                let right = self.parse_product()?;
                Ok(Expression::Mod(Box::new(left), Box::new(right)))
            },
            _ => Ok(left),
        }
    }

    /// `term := product ((+|-) term)?`
    fn parse_term(&mut self) -> (r: Result<Expression, Failure>)
        requires
            old(self).well_formed(),
        ensures
            final(self).follows(old(self)),
            match r {
                Ok(value) => old(self).pos < final(self).pos && parse_term(
                    old(self).tokens(),
                    old(self).position(),
                ) == (Parsed::Done { value: value@, next: final(self).position() }),
                Err(failure) => halted(failure, parse_term(old(self).tokens(), old(self).position())),
            },
        decreases old(self).tokens.len() - old(self).pos, 3nat,
    {
        let left = self.parse_product()?;
        match self.kind() {
            TokenKind::Plus => {
                self.next()?;
                let right = self.parse_term()?;
                Ok(Expression::Add(Box::new(left), Box::new(right)))
            },
            TokenKind::Minus => {
                self.next()?;
                let right = self.parse_term()?;
                Ok(Expression::Sub(Box::new(left), Box::new(right)))
            },
            _ => Ok(left),
        }
    }

    /// `comparison := term ((==|!=|<|>|<=|>=) comparison)?`
    fn parse_comparison(&mut self) -> (r: Result<Expression, Failure>)
        requires
            old(self).well_formed(),
        ensures
            final(self).follows(old(self)),
            match r {
                Ok(value) => old(self).pos < final(self).pos && parse_comparison(
                    old(self).tokens(),
                    old(self).position(),
                ) == (Parsed::Done { value: value@, next: final(self).position() }),
                Err(failure) => halted(
                    failure,
                    parse_comparison(old(self).tokens(), old(self).position()),
                ),
            },
        decreases old(self).tokens.len() - old(self).pos, 4nat,
    {
        let left = self.parse_term()?;
        match self.kind() {
            TokenKind::EqEq => {
                self.next()?;
                let right = self.parse_comparison()?;
                Ok(Expression::EqEq(Box::new(left), Box::new(right)))
            },
            TokenKind::Ne => {
                self.next()?;
                let right = self.parse_comparison()?;
                Ok(Expression::Ne(Box::new(left), Box::new(right)))
            },
            TokenKind::Lt => {
                self.next()?;
                let right = self.parse_comparison()?;
                Ok(Expression::Lt(Box::new(left), Box::new(right)))
            },
            TokenKind::Gt => {
                self.next()?;
                let right = self.parse_comparison()?;
                Ok(Expression::Gt(Box::new(left), Box::new(right)))
            },
            TokenKind::Leq => {
                self.next()?;
                let right = self.parse_comparison()?;
                Ok(Expression::Leq(Box::new(left), Box::new(right)))
            },
            TokenKind::Geq => {
                self.next()?;
                let right = self.parse_comparison()?;
                Ok(Expression::Geq(Box::new(left), Box::new(right)))
            },
            _ => Ok(left),
        }
    }

    /// `expr := comparison ((AND|OR) expr)?`
    fn parse_expression(&mut self) -> (r: Result<Expression, Failure>)
        requires
            old(self).well_formed(),
        ensures
            final(self).follows(old(self)),
            match r {
                Ok(value) => old(self).pos < final(self).pos && parse_expression(
                    old(self).tokens(),
                    old(self).position(),
                ) == (Parsed::Done { value: value@, next: final(self).position() }),
                Err(failure) => halted(
                    failure,
                    parse_expression(old(self).tokens(), old(self).position()),
                ),
            },
        decreases old(self).tokens.len() - old(self).pos, 5nat,
    {
        let left = self.parse_comparison()?;
        match self.kind() {
            TokenKind::And => {
                self.next()?;
                let right = self.parse_expression()?;
                Ok(Expression::And(Box::new(left), Box::new(right)))
            },
            TokenKind::Or => {
                self.next()?;
                let right = self.parse_expression()?;
                Ok(Expression::Or(Box::new(left), Box::new(right)))
            },
            _ => Ok(left),
        }
    }

    /// The parameter names of a definition.
    fn parse_def_params(&mut self) -> (r: Result<Vec<String>, Failure>)
        requires
            old(self).well_formed(),
        ensures
            final(self).follows(old(self)),
            match r {
                Ok(params) => parse_def_params(old(self).tokens(), old(self).position(), Seq::empty())
                    == (Parsed::Done { value: name_views(params@), next: final(self).position() }),
                Err(failure) => halted(
                    failure,
                    parse_def_params(old(self).tokens(), old(self).position(), Seq::empty()),
                ),
            },
    {
        let mut params: Vec<String> = Vec::new();
        assert(name_views(params@) =~= Seq::empty());
        loop
            invariant_except_break
                parse_def_params(old(self).tokens(), old(self).position(), Seq::empty())
                    == parse_def_params(self.tokens(), self.position(), name_views(params@)),
            invariant
                self.follows(old(self)),
            ensures
                parse_def_params(old(self).tokens(), old(self).position(), Seq::empty())
                    == (Parsed::Done { value: name_views(params@), next: self.position() }),
            decreases self.tokens.len() - self.pos,
        {
            match self.kind() {
                TokenKind::Identifier => {
                    let name = self.tokens[self.pos].lexeme.clone();
                    proof {
                        lemma_name_views_push(params@, name);
                    }
                    params.push(name);
                    self.next()?;
                },
                _ => {
                    break ;
                },
            }
            match self.kind() {
                TokenKind::Comma => {
                    self.next()?;
                },
                _ => {
                    break ;
                },
            }
        }
        Ok(params)
    }

    /// Reads `':' NEWLINE INDENT` and the block that follows.
    fn parse_block(&mut self) -> (r: Result<Body, Failure>)
        requires
            old(self).well_formed(),
        ensures
            final(self).follows(old(self)),
            match r {
                Ok(body) => old(self).pos < final(self).pos && parse_block(
                    old(self).tokens(),
                    old(self).position(),
                ) == (Parsed::Done { value: body@, next: final(self).position() }),
                Err(failure) => halted(failure, parse_block(old(self).tokens(), old(self).position())),
            },
        decreases old(self).tokens.len() - old(self).pos, 2nat,
    {
        self.expect(TokenKind::Colon)?;
        self.expect(TokenKind::Newline)?;
        self.expect(TokenKind::Indent)?;
        self.parse_body()
    }

    /// `def_tail := IDENT '(' params? ')' block`
    fn parse_def(&mut self) -> (r: Result<Statement, Failure>)
        requires
            old(self).well_formed(),
        ensures
            final(self).follows(old(self)),
            match r {
                Ok(statement) => old(self).pos < final(self).pos && parse_def(
                    old(self).tokens(),
                    old(self).position(),
                ) == (Parsed::Done { value: statement@, next: final(self).position() }),
                Err(failure) => halted(failure, parse_def(old(self).tokens(), old(self).position())),
            },
        decreases old(self).tokens.len() - old(self).pos, 2nat,
    {
        let name_token = self.expect(TokenKind::Identifier)?;
        self.expect(TokenKind::ParenL)?;
        let params = self.parse_def_params()?;
        self.expect(TokenKind::ParenR)?;
        let body = self.parse_block()?;
        Ok(Statement::Def { name: name_token.lexeme, params, body })
    }

    /// `if_tail := expr block (ELIF expr block)* (ELSE block)?`
    fn parse_if(&mut self) -> (r: Result<Statement, Failure>)
        requires
            old(self).well_formed(),
        ensures
            final(self).follows(old(self)),
            match r {
                Ok(statement) => old(self).pos < final(self).pos && parse_if(
                    old(self).tokens(),
                    old(self).position(),
                ) == (Parsed::Done { value: statement@, next: final(self).position() }),
                Err(failure) => halted(failure, parse_if(old(self).tokens(), old(self).position())),
            },
        decreases old(self).tokens.len() - old(self).pos, 2nat,
    {
        let condition = self.parse_expression()?;
        let body = self.parse_block()?;
        let elif = self.parse_elif()?;
        let else_body = self.parse_else()?;
        Ok(Statement::If { condition, body, elif, else_body })
    }

    /// `(ELIF expr block)*`
    fn parse_elif(&mut self) -> (r: Result<Vec<(Expression, Body)>, Failure>)
        requires
            old(self).well_formed(),
        ensures
            final(self).follows(old(self)),
            match r {
                Ok(elif) => parse_elif(old(self).tokens(), old(self).position(), Seq::empty())
                    == (Parsed::Done { value: branch_views(elif@), next: final(self).position() }),
                Err(failure) => halted(
                    failure,
                    parse_elif(old(self).tokens(), old(self).position(), Seq::empty()),
                ),
            },
        decreases old(self).tokens.len() - old(self).pos, 2nat,
    {
        let mut elif: Vec<(Expression, Body)> = Vec::new();
        while self.kind() == TokenKind::Elif
            invariant
                self.follows(old(self)),
                parse_elif(old(self).tokens(), old(self).position(), Seq::empty()) == parse_elif(
                    self.tokens(),
                    self.position(),
                    branch_views(elif@),
                ),
            decreases self.tokens.len() - self.pos,
        {
            self.next()?;
            let condition = self.parse_expression()?;
            let body = self.parse_block()?;
            proof {
                lemma_branch_views_push(elif@, (condition, body));
            }
            elif.push((condition, body));
        }
        Ok(elif)
    }

    /// `(ELSE block)?`
    fn parse_else(&mut self) -> (r: Result<Option<Body>, Failure>)
        requires
            old(self).well_formed(),
        ensures
            final(self).follows(old(self)),
            match r {
                Ok(else_body) => parse_else(old(self).tokens(), old(self).position()) == (Parsed::Done {
                    value: match else_body {
                        Some(body) => Some(body@),
                        None => None,
                    },
                    next: final(self).position(),
                }),
                Err(failure) => halted(failure, parse_else(old(self).tokens(), old(self).position())),
            },
        decreases old(self).tokens.len() - old(self).pos, 2nat,
    {
        if self.kind() == TokenKind::Else {
            self.next()?;
            let body = self.parse_block()?;
            Ok(Some(body))
        } else {
            Ok(None)
        }
    }

    /// `statement := PRINT expr | RETURN expr | DEF def_tail | IF if_tail`
    fn parse_statement(&mut self) -> (r: Result<Statement, Failure>)
        requires
            old(self).well_formed(),
        ensures
            final(self).follows(old(self)),
            match r {
                Ok(statement) => old(self).pos < final(self).pos && parse_statement(
                    old(self).tokens(),
                    old(self).position(),
                ) == (Parsed::Done { value: statement@, next: final(self).position() }),
                Err(failure) => halted(
                    failure,
                    parse_statement(old(self).tokens(), old(self).position()),
                ),
            },
        decreases old(self).tokens.len() - old(self).pos, 0nat,
    {
        match self.kind() {
            TokenKind::Print => {
                self.next()?;
                let value = self.parse_expression()?;
                Ok(Statement::Print(value))
            },
            TokenKind::Return => {
                self.next()?;
                let value = self.parse_expression()?;
                Ok(Statement::Return(value))
            },
            TokenKind::Def => {
                self.next()?;
                self.parse_def()
            },
            TokenKind::If => {
                self.next()?;
                self.parse_if()
            },
            _ => Err(Failure::Rejected(Error::UnexpectedToken(self.tokens[self.pos].duplicate()))),
        }
    }

    /// `body := (statement | NEWLINE)* (DEDENT | EOF)`
    fn parse_body(&mut self) -> (r: Result<Body, Failure>)
        requires
            old(self).well_formed(),
        ensures
            final(self).follows(old(self)),
            match r {
                Ok(body) => parse_body(old(self).tokens(), old(self).position(), Seq::empty())
                    == (Parsed::Done { value: body@, next: final(self).position() }),
                Err(failure) => halted(
                    failure,
                    parse_body(old(self).tokens(), old(self).position(), Seq::empty()),
                ),
            },
        decreases old(self).tokens.len() - old(self).pos, 1nat,
    {
        let mut statements: Vec<Statement> = Vec::new();
        loop
            invariant_except_break
                parse_body(old(self).tokens(), old(self).position(), Seq::empty()) == parse_body(
                    self.tokens(),
                    self.position(),
                    statement_views(statements@),
                ),
            invariant
                self.follows(old(self)),
            ensures
                parse_body(old(self).tokens(), old(self).position(), Seq::empty()) == (Parsed::Done {
                    value: statement_views(statements@),
                    next: self.position(),
                }),
            decreases self.tokens.len() - self.pos,
        {
            match self.kind() {
                TokenKind::Eof => {
                    break ;
                },
                TokenKind::Dedent => {
                    self.next()?;
                    break ;
                },
                TokenKind::Newline => {
                    self.next()?;
                },
                _ => {
                    let statement = self.parse_statement()?;
                    proof {
                        lemma_statement_views_push(statements@, statement);
                    }
                    statements.push(statement);
                },
            }
        }
        Ok(Body { statements })
    }

    /// Parses the whole token sequence, whatever it holds.
    pub fn try_parse_program(self) -> (r: Result<Program, Failure>)
        requires
            self.well_formed(),
            self.position() == 0,
        ensures
            match r {
                Ok(program) => parse(self.tokens()) matches Parsed::Done { value, .. } && value
                    == program@,
                Err(failure) => halted(failure, parse(self.tokens())),
            },
    {
        let mut parser = self;
        let body = parser.parse_body()?;
        if parser.pos + 1 != parser.tokens.len() {
            return Err(Failure::Malformed);
        }
        match parser.kind() {
            TokenKind::Eof => Ok(Program { body }),
            _ => Err(Failure::Rejected(Error::UnexpectedToken(parser.tokens[parser.pos].duplicate()))),
        }
    }

    /// Parses the whole token sequence as a program, or says which token
    /// the grammar does not admit.
    pub fn parse_program(self) -> (r: Result<Program, Error>)
        requires
            self.well_formed(),
            self.position() == 0,
            !(parse(self.tokens()) is Malformed),
        ensures
            match r {
                Ok(program) => parse(self.tokens()) matches Parsed::Done { value, .. } && value
                    == program@,
                Err(e) => parse(self.tokens()) == Parsed::<Seq<StatementView>>::Rejected(e@),
            },
    {
        match self.try_parse_program() {
            Ok(program) => Ok(program),
            Err(Failure::Rejected(e)) => Err(e),
            Err(Failure::Malformed) => vstd::pervasive::unreached(),
        }
    }
}

} // verus!
