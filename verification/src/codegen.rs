//! The code generator, and the function it computes.
//!
//! Code is a sequence of trees in stack-machine order: the code of an
//! operand leaves one value on the stack, and the instruction after the
//! operands consumes them.
use vstd::prelude::*;
use vstd::string::StringExecFns;
use crate::program::{
    expression_views,
    lemma_branch_views,
    lemma_expression_views,
    lemma_statement_views,
    name_views,
    BinaryOp,
    Body,
    Expression,
    ExpressionView,
    Program,
    Statement,
    StatementView,
    Value,
    ValueView,
};
use crate::text::{decimal_digits, push_decimal};
use crate::wexp::{atom, lemma_wexp_views_add, lemma_wexp_views_push, wexp_views, Wexp, WexpView};

verus! {

/// The symbol under which the source name `name` appears in the module.
pub open spec fn mangled(name: Seq<char>) -> Seq<char> {
    seq!['$'] + name
}

/// The instruction that applies `op` to the two values on top of the stack.
pub open spec fn instruction(op: BinaryOp) -> WexpView {
    match op {
        BinaryOp::Add => atom("i32.add"),
        BinaryOp::Sub => atom("i32.sub"),
        BinaryOp::Mult => atom("i32.mul"),
        BinaryOp::Div => atom("i32.div_s"),
        BinaryOp::Mod => atom("i32.rem_s"),
        BinaryOp::Lt => atom("i32.lt_s"),
        BinaryOp::Gt => atom("i32.gt_s"),
        BinaryOp::Leq => atom("i32.le_s"),
        BinaryOp::Geq => atom("i32.ge_s"),
        BinaryOp::EqEq => atom("i32.eq"),
        BinaryOp::Ne => atom("i32.ne"),
        BinaryOp::And => atom("i32.and"),
        BinaryOp::Or => atom("i32.or"),
    }
}

/// `(result i32)`: every function and every conditional yields one integer.
pub open spec fn result_type() -> WexpView {
    WexpView::List(seq![atom("result"), atom("i32")])
}

/// `(param $name i32)`
pub open spec fn param_entry(name: Seq<char>) -> WexpView {
    WexpView::List(seq![atom("param"), WexpView::Atom(mangled(name)), atom("i32")])
}

/// The declaration of the host's `print`, which takes one integer.
pub open spec fn print_import() -> WexpView {
    WexpView::List(
        seq![
            atom("func"),
            atom("$print"),
            WexpView::List(seq![atom("import"), atom("\"host\""), atom("\"print\"")]),
            WexpView::List(seq![atom("param"), atom("i32")]),
        ],
    )
}

/// The code that leaves the value of `v` on the stack.
pub open spec fn value_code(v: ValueView) -> Seq<WexpView>
    decreases v,
{
    match v {
        ValueView::Integer(i) => seq![atom("i32.const"), WexpView::Atom(decimal_digits(i as nat))],
        ValueView::Variable(name) => seq![atom("get_local"), WexpView::Atom(mangled(name))],
        ValueView::Complex(inner) => expression_code(*inner),
    }
}

/// The code that leaves the value of `e` on the stack: operands first,
/// left to right, then the instruction or the call.
pub open spec fn expression_code(e: ExpressionView) -> Seq<WexpView>
    decreases e,
{
    match e {
        ExpressionView::Binary { op, left, right } => expression_code(*left) + expression_code(*right)
            + seq![instruction(op)],
        ExpressionView::Call { name, params } => arguments_code(params) + seq![
            atom("call"),
            WexpView::Atom(mangled(name)),
        ],
        ExpressionView::Simple(value) => value_code(value),
    }
}

/// The code of the arguments of a call, in order.
pub open spec fn arguments_code(params: Seq<ExpressionView>) -> Seq<WexpView>
    decreases params,
{
    if params.len() == 0 {
        Seq::empty()
    } else {
        arguments_code(params.drop_last()) + expression_code(params.last())
    }
}

/// The number of `elif` branches of a conditional.
pub open spec fn branches(s: StatementView) -> nat {
    match s {
        StatementView::If { elif, .. } => elif.len(),
        _ => 0,
    }
}

/// The code of `s` inside a block. A definition contributes nothing
/// there: it becomes a function of the module.
pub open spec fn statement_code(s: StatementView) -> Seq<WexpView>
    decreases s, branches(s) + 2,
{
    match s {
        StatementView::Print(e) => expression_code(e) + seq![atom("call"), atom("$print")],
        StatementView::Return(e) => expression_code(e),
        StatementView::If { .. } => if_code(s),
        StatementView::Def { .. } => Seq::empty(),
    }
}

/// The code of a conditional: the condition, `if (result i32)`, the body,
/// what follows the body, and `end`. Of any other statement, nothing.
pub open spec fn if_code(s: StatementView) -> Seq<WexpView>
    decreases s, branches(s) + 1,
{
    match s {
        StatementView::If { condition, body, .. } => expression_code(condition) + seq![
            atom("if"),
            result_type(),
        ] + body_code(body) + else_code(s, 0) + seq![atom("end")],
        _ => Seq::empty(),
    }
}

/// What follows the body of the conditional `s` once its first `from`
/// `elif` branches are dealt with: `else` and the next `elif` as a
/// conditional of its own, nested; or `else` and the `else` block; or
/// nothing.
pub open spec fn else_code(s: StatementView, from: nat) -> Seq<WexpView>
    decreases s, branches(s) - from,
{
    match s {
        StatementView::If { elif, else_body, .. } => if from < elif.len() {
            seq![atom("else")] + expression_code(elif[from as int].0) + seq![atom("if"), result_type()]
                + body_code(elif[from as int].1) + else_code(s, from + 1) + seq![atom("end")]
        } else {
            match else_body {
                Some(body) => seq![atom("else")] + body_code(body),
                None => Seq::empty(),
            }
        },
        _ => Seq::empty(),
    }
}

/// The code of a block: the code of its statements, in order.
pub open spec fn body_code(body: Seq<StatementView>) -> Seq<WexpView>
    decreases body, 0nat,
{
    if body.len() == 0 {
        Seq::empty()
    } else {
        body_code(body.drop_last()) + statement_code(body.last())
    }
}

/// The `(param $name i32)` entries for `params`, in order.
pub open spec fn param_entries(params: Seq<Seq<char>>) -> Seq<WexpView> {
    params.map_values(|name: Seq<char>| param_entry(name))
}

/// The function that a definition becomes: its mangled name, its
/// parameters, one integer result, and the code of its body. Of any other
/// statement, the bare `(func)`.
pub open spec fn def_code(s: StatementView) -> WexpView {
    match s {
        StatementView::Def { name, params, body } => WexpView::List(
            seq![atom("func"), WexpView::Atom(mangled(name))] + param_entries(params) + seq![
                result_type(),
            ] + body_code(body),
        ),
        _ => WexpView::List(seq![atom("func")]),
    }
}

/// The functions for the definitions that stand directly in `body`, in order.
pub open spec fn defs_code(body: Seq<StatementView>) -> Seq<WexpView>
    decreases body.len(),
{
    if body.len() == 0 {
        Seq::empty()
    } else if body.last() is Def {
        defs_code(body.drop_last()).push(def_code(body.last()))
    } else {
        defs_code(body.drop_last())
    }
}

/// The exported function `main`, which runs the top-level statements.
pub open spec fn main_code(program: Seq<StatementView>) -> WexpView {
    WexpView::List(
        seq![atom("func"), WexpView::List(seq![atom("export"), atom("\"main\"")])] + body_code(
            program,
        ),
    )
}

/// The module for `program`: the import of `print`, one function for each
/// top-level definition, and `main`.
pub open spec fn module_code(program: Seq<StatementView>) -> WexpView {
    WexpView::List(
        (seq![atom("module"), print_import()] + defs_code(program)).push(main_code(program)),
    )
}

/// The number of `elif` branches of a conditional.
pub open spec fn elif_count(s: &Statement) -> nat {
    match s {
        Statement::If { elif, .. } => elif@.len(),
        _ => 0,
    }
}

/// Appends `item` to `code`.
fn emit(code: &mut Vec<Wexp>, item: Wexp)
    ensures
        wexp_views(final(code)@) == wexp_views(old(code)@).push(item@),
{
    proof {
        lemma_wexp_views_push(code@, item);
    }
    code.push(item);
}

/// Appends all of `more` to `code`.
fn emit_all(code: &mut Vec<Wexp>, more: Vec<Wexp>)
    ensures
        wexp_views(final(code)@) == wexp_views(old(code)@) + wexp_views(more@),
{
    let mut more = more;
    proof {
        lemma_wexp_views_add(code@, more@);
    }
    code.append(&mut more);
}

/// No code yet.
fn no_code() -> (code: Vec<Wexp>)
    ensures
        wexp_views(code@) == Seq::<WexpView>::empty(),
{
    let code: Vec<Wexp> = Vec::new();
    assert(wexp_views(code@) =~= Seq::empty());
    code
}

/// The list of the trees in `items`.
fn list(items: Vec<Wexp>) -> (w: Wexp)
    ensures
        w@ == WexpView::List(wexp_views(items@)),
{
    Wexp::List(items)
}

/// Lowers one program to a WebAssembly module.
pub struct CodeGenerator {
    program: Program,
}

impl CodeGenerator {
    /// The program that this generator lowers.
    pub closed spec fn program(&self) -> Seq<StatementView> {
        self.program@
    }

    /// A generator for `program`.
    pub fn new(program: Program) -> (generator: CodeGenerator)
        ensures
            generator.program() == program@,
    {
        CodeGenerator { program }
    }

    /// The module for the program.
    pub fn codegen(self) -> (module: Wexp)
        ensures
            module@ == module_code(self.program()),
    {
        let mut import = no_code();
        emit(&mut import, Wexp::atom("import"));
        emit(&mut import, Wexp::atom("\"host\""));
        emit(&mut import, Wexp::atom("\"print\""));
        assert(wexp_views(import@) =~= seq![atom("import"), atom("\"host\""), atom("\"print\"")]);
        let mut param = no_code();
        emit(&mut param, Wexp::atom("param"));
        emit(&mut param, Wexp::atom("i32"));
        assert(wexp_views(param@) =~= seq![atom("param"), atom("i32")]);
        let mut print = no_code();
        emit(&mut print, Wexp::atom("func"));
        emit(&mut print, Wexp::atom("$print"));
        emit(&mut print, list(import));
        emit(&mut print, list(param));
        assert(wexp_views(print@) =~= seq![
            atom("func"),
            atom("$print"),
            WexpView::List(seq![atom("import"), atom("\"host\""), atom("\"print\"")]),
            WexpView::List(seq![atom("param"), atom("i32")]),
        ]);
        let mut module = no_code();
        emit(&mut module, Wexp::atom("module"));
        emit(&mut module, list(print));
        let defs = self.codegen_defs(&self.program.body);
        emit_all(&mut module, defs);
        let mut export = no_code();
        emit(&mut export, Wexp::atom("export"));
        emit(&mut export, Wexp::atom("\"main\""));
        assert(wexp_views(export@) =~= seq![atom("export"), atom("\"main\"")]);
        let mut main = no_code();
        emit(&mut main, Wexp::atom("func"));
        emit(&mut main, list(export));
        let body = self.codegen_body(&self.program.body);
        emit_all(&mut main, body);
        assert(wexp_views(main@) =~= seq![
            atom("func"),
            WexpView::List(seq![atom("export"), atom("\"main\"")]),
        ] + body_code(self.program()));
        emit(&mut module, list(main));
        assert(wexp_views(module@) =~= (seq![atom("module"), print_import()] + defs_code(
            self.program(),
        )).push(main_code(self.program())));
        list(module)
    }

    /// One function for each definition that stands directly in `body`.
    pub fn codegen_defs(&self, body: &Body) -> (defs: Vec<Wexp>)
        ensures
            wexp_views(defs@) == defs_code(body@),
    {
        let mut defs = no_code();
        let ghost all = body@;
        proof {
            lemma_statement_views(body.statements@);
        }
        let mut i: usize = 0;
        while i < body.statements.len()
            invariant
                i <= body.statements.len(),
                all == body@,
                all.len() == body.statements.len(),
                forall|j: int| 0 <= j < all.len() ==> (#[trigger] all[j]) == body.statements[j]@,
                wexp_views(defs@) == defs_code(all.take(i as int)),
            decreases body.statements.len() - i,
        {
            proof {
                assert(all.take(i as int + 1).drop_last() =~= all.take(i as int));
                assert(all.take(i as int + 1).last() == all[i as int]);
            }
            let statement = &body.statements[i];
            if let Statement::Def { .. } = statement {
                let def = self.codegen_def(statement);
                emit(&mut defs, def);
            }
            i += 1;
        }
        assert(all.take(all.len() as int) =~= all);
        defs
    }

    /// The code of a block: the code of its statements other than definitions.
    pub fn codegen_body(&self, body: &Body) -> (code: Vec<Wexp>)
        ensures
            wexp_views(code@) == body_code(body@),
        decreases body, 0nat,
    {
        let mut code = no_code();
        let ghost all = body@;
        proof {
            lemma_statement_views(body.statements@);
        }
        let mut i: usize = 0;
        while i < body.statements.len()
            invariant
                i <= body.statements.len(),
                all == body@,
                all.len() == body.statements.len(),
                forall|j: int| 0 <= j < all.len() ==> (#[trigger] all[j]) == body.statements[j]@,
                forall|j: int|
                    0 <= j < body.statements.len() ==> decreases_to!(body => #[trigger] body.statements[j]),
                wexp_views(code@) == body_code(all.take(i as int)),
            decreases body.statements.len() - i,
        {
            proof {
                assert(all.take(i as int + 1).drop_last() =~= all.take(i as int));
                assert(all.take(i as int + 1).last() == all[i as int]);
            }
            let statement = &body.statements[i];
            assert(body_code(all.take(i as int + 1)) == body_code(all.take(i as int)) + statement_code(
                statement@,
            ));
            if let Statement::Def { .. } = statement {
                assert(statement_code(statement@) == Seq::<WexpView>::empty());
                assert(wexp_views(code@) + Seq::<WexpView>::empty() =~= wexp_views(code@));
            } else {
                let more = self.codegen_statement(statement);
                emit_all(&mut code, more);
            }
            i += 1;
        }
        assert(all.take(all.len() as int) =~= all);
        code
    }

    /// The function that a definition becomes.
    pub fn codegen_def(&self, stmt: &Statement) -> (def: Wexp)
        ensures
            def@ == def_code(stmt@),
    {
        let mut def_wexp = no_code();
        emit(&mut def_wexp, Wexp::atom("func"));
        if let Statement::Def { name, params, body } = stmt {
            emit(&mut def_wexp, Wexp::Atom(Self::prepend_dollar(name.as_str())));
            let ghost head = wexp_views(def_wexp@);
            let ghost names = name_views(params@);
            let mut i: usize = 0;
            while i < params.len()
                invariant
                    i <= params.len(),
                    names == name_views(params@),
                    wexp_views(def_wexp@) == head + param_entries(names.take(i as int)),
                decreases params.len() - i,
            {
                let mut param_wexp = no_code();
                emit(&mut param_wexp, Wexp::atom("param"));
                emit(&mut param_wexp, Wexp::Atom(Self::prepend_dollar(params[i].as_str())));
                emit(&mut param_wexp, Wexp::atom("i32"));
                assert(wexp_views(param_wexp@) =~= seq![
                    atom("param"),
                    WexpView::Atom(mangled(names[i as int])),
                    atom("i32"),
                ]);
                emit(&mut def_wexp, list(param_wexp));
                i += 1;
                assert(wexp_views(def_wexp@) =~= head + param_entries(names.take(i as int)));
            }
            assert(names.take(params.len() as int) =~= names);
            emit(&mut def_wexp, Self::result_wexp());
            let b = self.codegen_body(body);
            emit_all(&mut def_wexp, b);
            assert(wexp_views(def_wexp@) =~= seq![atom("func"), WexpView::Atom(mangled(name@))]
                + param_entries(names) + seq![result_type()] + body_code(body@));
        } else {
            assert(wexp_views(def_wexp@) =~= seq![atom("func")]);
        }
        list(def_wexp)
    }

    /// The code of a statement inside a block.
    pub fn codegen_statement(&self, stmt: &Statement) -> (code: Vec<Wexp>)
        requires
            !(stmt is Def),
        ensures
            wexp_views(code@) == statement_code(stmt@),
        decreases stmt, elif_count(stmt) + 2,
    {
        match stmt {
            Statement::Print(e) => {
                let mut atoms = self.codegen_expression(e);
                emit(&mut atoms, Wexp::atom("call"));
                emit(&mut atoms, Wexp::atom("$print"));
                assert(wexp_views(atoms@) =~= statement_code(stmt@));
                atoms
            },
            Statement::Return(e) => self.codegen_expression(e),
            Statement::If { .. } => self.codegen_if(stmt),
            Statement::Def { .. } => vstd::pervasive::unreached(),
        }
    }

    /// The code of a conditional.
    pub fn codegen_if(&self, stmt: &Statement) -> (code: Vec<Wexp>)
        ensures
            wexp_views(code@) == if_code(stmt@),
        decreases stmt, elif_count(stmt) + 1,
    {
        let mut if_wexp = no_code();
        if let Statement::If { condition, body, elif, else_body } = stmt {
            proof {
                lemma_branch_views(elif@);
            }
            let cond_wexp = self.codegen_expression(condition);
            emit_all(&mut if_wexp, cond_wexp);
            emit(&mut if_wexp, Wexp::atom("if"));
            emit(&mut if_wexp, Self::result_wexp());
            let body_wexp = self.codegen_body(body);
            emit_all(&mut if_wexp, body_wexp);
            let else_wexp = self.codegen_else(stmt, 0);
            emit_all(&mut if_wexp, else_wexp);
            emit(&mut if_wexp, Wexp::atom("end"));
            assert(wexp_views(if_wexp@) =~= if_code(stmt@));
        }
        if_wexp
    }

    /// What follows the body of a conditional once its first `from` `elif`
    /// branches are dealt with.
    fn codegen_else(&self, stmt: &Statement, from: usize) -> (code: Vec<Wexp>)
        requires
            from <= elif_count(stmt),
        ensures
            wexp_views(code@) == else_code(stmt@, from as nat),
        decreases stmt, elif_count(stmt) - from,
    {
        let mut else_wexp = no_code();
        if let Statement::If { condition, body, elif, else_body } = stmt {
            proof {
                lemma_branch_views(elif@);
            }
            if from < elif.len() {
                emit(&mut else_wexp, Wexp::atom("else"));
                let cond_wexp = self.codegen_expression(&elif[from].0);
                emit_all(&mut else_wexp, cond_wexp);
                emit(&mut else_wexp, Wexp::atom("if"));
                emit(&mut else_wexp, Self::result_wexp());
                let body_wexp = self.codegen_body(&elif[from].1);
                emit_all(&mut else_wexp, body_wexp);
                let rest = self.codegen_else(stmt, from + 1);
                emit_all(&mut else_wexp, rest);
                emit(&mut else_wexp, Wexp::atom("end"));
                assert(wexp_views(else_wexp@) =~= else_code(stmt@, from as nat));
            } else if let Some(b) = else_body {
                emit(&mut else_wexp, Wexp::atom("else"));
                let body_wexp = self.codegen_body(b);
                emit_all(&mut else_wexp, body_wexp);
                assert(wexp_views(else_wexp@) =~= else_code(stmt@, from as nat));
            }
        }
        else_wexp
    }

    /// `(result i32)`
    fn result_wexp() -> (w: Wexp)
        ensures
            w@ == result_type(),
    {
        let mut return_type = no_code();
        emit(&mut return_type, Wexp::atom("result"));
        emit(&mut return_type, Wexp::atom("i32"));
        assert(wexp_views(return_type@) =~= seq![atom("result"), atom("i32")]);
        list(return_type)
    }

    /// The code that leaves the value of an expression on the stack.
    pub fn codegen_expression(&self, expr: &Expression) -> (code: Vec<Wexp>)
        ensures
            wexp_views(code@) == expression_code(expr@),
        decreases expr,
    {
        let (left, right, operation) = match expr {
            Expression::Simple(v) => {
                return self.codegen_value(v);
            },
            Expression::Call { name, params } => {
                let mut atoms = no_code();
                let ghost all = expression_views(params@);
                proof {
                    lemma_expression_views(params@);
                }
                let mut i: usize = 0;
                while i < params.len()
                    invariant
                        i <= params.len(),
                        all == expression_views(params@),
                        all.len() == params.len(),
                        forall|j: int| 0 <= j < all.len() ==> (#[trigger] all[j]) == params[j]@,
                        forall|j: int| 0 <= j < params.len() ==> decreases_to!(expr => #[trigger] params[j]),
                        wexp_views(atoms@) == arguments_code(all.take(i as int)),
                    decreases params.len() - i,
                {
                    proof {
                        assert(all.take(i as int + 1).drop_last() =~= all.take(i as int));
                        assert(all.take(i as int + 1).last() == all[i as int]);
                    }
                    let more = self.codegen_expression(&params[i]);
                    emit_all(&mut atoms, more);
                    i += 1;
                }
                assert(all.take(all.len() as int) =~= all);
                emit(&mut atoms, Wexp::atom("call"));
                emit(&mut atoms, Wexp::Atom(Self::prepend_dollar(name.as_str())));
                assert(wexp_views(atoms@) =~= expression_code(expr@));
                return atoms;
            },
            Expression::Add(l, r) => (l, r, "i32.add"),
            Expression::Sub(l, r) => (l, r, "i32.sub"),
            Expression::Mult(l, r) => (l, r, "i32.mul"),
            Expression::Div(l, r) => (l, r, "i32.div_s"),
            Expression::Mod(l, r) => (l, r, "i32.rem_s"),
            Expression::Lt(l, r) => (l, r, "i32.lt_s"),
            Expression::Gt(l, r) => (l, r, "i32.gt_s"),
            Expression::Leq(l, r) => (l, r, "i32.le_s"),
            Expression::Geq(l, r) => (l, r, "i32.ge_s"),
            Expression::EqEq(l, r) => (l, r, "i32.eq"),
            Expression::Ne(l, r) => (l, r, "i32.ne"),
            Expression::And(l, r) => (l, r, "i32.and"),
            Expression::Or(l, r) => (l, r, "i32.or"),
        };
        let mut atoms = self.codegen_expression(left);
        let expr_r = self.codegen_expression(right);
        emit_all(&mut atoms, expr_r);
        emit(&mut atoms, Wexp::atom(operation));
        assert(wexp_views(atoms@) =~= expression_code(expr@));
        atoms
    }

    /// The code that leaves a value on the stack.
    pub fn codegen_value(&self, value: &Value) -> (code: Vec<Wexp>)
        ensures
            wexp_views(code@) == value_code(value@),
        decreases value,
    {
        let mut atoms = no_code();
        match value {
            Value::Integer(i) => {
                emit(&mut atoms, Wexp::atom("i32.const"));
                let mut digits = String::new();
                push_decimal(&mut digits, *i);
                assert(digits@ =~= decimal_digits(*i as nat));
                emit(&mut atoms, Wexp::Atom(digits));
            },
            Value::Variable(v) => {
                emit(&mut atoms, Wexp::atom("get_local"));
                emit(&mut atoms, Wexp::Atom(Self::prepend_dollar(v.as_str())));
            },
            Value::Complex(inner) => {
                return self.codegen_expression(inner);
            },
        }
        assert(wexp_views(atoms@) =~= value_code(value@));
        atoms
    }

    /// The symbol for a source name.
    fn prepend_dollar(name: &str) -> (symbol: String)
        ensures
            symbol@ == mangled(name@),
    {
        proof {
            reveal_strlit("$");
        }
        let mut s = String::from_str("$");
        s.append(name);
        assert(s@ =~= mangled(name@));
        s
    }
}

} // verus!
