//! The abstract syntax tree produced by the parser and consumed by the
//! evaluator, together with its spec-level mirror and a verified deep clone.

use vstd::prelude::*;

verus! {

broadcast use vstd::seq::axiom_seq_index_decreases, vstd::std_specs::vec::axiom_vec_decreases_to_view, vstd::std_specs::vec::axiom_vec_index_decreases;

/// A top-level or function-body statement.
#[derive(Debug)]
pub enum Stmt {
    /// A function declaration: `init name(params): body`.
    Init { name: String, params: Vec<String>, body: Vec<Stmt> },
    /// The one built-in output statement: `log(value)`.
    Log { value: Expr },
    /// An expression evaluated for effect, its value discarded.
    ExprStmt(Expr),
}

/// An expression.
#[derive(Debug)]
pub enum Expr {
    /// A realized string value.
    Literal(String),
    /// A name lookup.
    Variable(String),
    /// A call of a named function with argument expressions.
    Call { callee: String, arguments: Vec<Expr> },
    /// A raw template string still containing `${name}` placeholders.
    Template(String),
}

/// Spec-level mirror of [`Stmt`].
#[verifier::ext_equal]
pub ghost enum StmtV {
    Init { name: Seq<char>, params: Seq<Seq<char>>, body: Seq<StmtV> },
    Log { value: ExprV },
    ExprStmt(ExprV),
}

/// Spec-level mirror of [`Expr`].
#[verifier::ext_equal]
pub ghost enum ExprV {
    Literal(Seq<char>),
    Variable(Seq<char>),
    Call { callee: Seq<char>, arguments: Seq<ExprV> },
    Template(Seq<char>),
}

/// The deep view of a parameter-name list.
pub open spec fn strings_view(ns: Seq<String>) -> Seq<Seq<char>>
    decreases ns.len(),
{
    if ns.len() == 0 {
        Seq::empty()
    } else {
        seq![ns[0]@] + strings_view(ns.drop_first())
    }
}

/// The deep view of an expression.
pub open spec fn expr_view(e: Expr) -> ExprV
    decreases e,
{
    match e {
        Expr::Literal(s) => ExprV::Literal(s@),
        Expr::Variable(s) => ExprV::Variable(s@),
        Expr::Call { callee, arguments } => ExprV::Call {
            callee: callee@,
            arguments: exprs_view(arguments@),
        },
        Expr::Template(s) => ExprV::Template(s@),
    }
}

/// The deep view of an expression list.
pub open spec fn exprs_view(es: Seq<Expr>) -> Seq<ExprV>
    decreases es,
{
    if es.len() == 0 {
        Seq::empty()
    } else {
        seq![expr_view(es[0])] + exprs_view(es.drop_first())
    }
}

/// The deep view of a statement.
pub open spec fn stmt_view(s: Stmt) -> StmtV
    decreases s,
{
    match s {
        Stmt::Init { name, params, body } => StmtV::Init {
            name: name@,
            params: strings_view(params@),
            body: stmts_view(body@),
        },
        Stmt::Log { value } => StmtV::Log { value: expr_view(value) },
        Stmt::ExprStmt(e) => StmtV::ExprStmt(expr_view(e)),
    }
}

/// The deep view of a statement list.
pub open spec fn stmts_view(ss: Seq<Stmt>) -> Seq<StmtV>
    decreases ss,
{
    if ss.len() == 0 {
        Seq::empty()
    } else {
        seq![stmt_view(ss[0])] + stmts_view(ss.drop_first())
    }
}

/// `strings_view` maps the list pointwise.
pub proof fn lemma_strings_view(ns: Seq<String>)
    ensures
        strings_view(ns).len() == ns.len(),
        forall|i: int| 0 <= i < ns.len() ==> strings_view(ns)[i] == ns[i]@,
    decreases ns.len(),
{
    if ns.len() > 0 {
        lemma_strings_view(ns.drop_first());
    }
}

/// `exprs_view` maps the list pointwise.
pub proof fn lemma_exprs_view(es: Seq<Expr>)
    ensures
        exprs_view(es).len() == es.len(),
        forall|i: int| 0 <= i < es.len() ==> exprs_view(es)[i] == expr_view(es[i]),
    decreases es.len(),
{
    if es.len() > 0 {
        lemma_exprs_view(es.drop_first());
    }
}

/// `stmts_view` maps the list pointwise.
pub proof fn lemma_stmts_view(ss: Seq<Stmt>)
    ensures
        stmts_view(ss).len() == ss.len(),
        forall|i: int| 0 <= i < ss.len() ==> stmts_view(ss)[i] == stmt_view(ss[i]),
    decreases ss.len(),
{
    if ss.len() > 0 {
        lemma_stmts_view(ss.drop_first());
    }
}

/// Clones a parameter-name list, keeping its view.
#[verifier::loop_isolation(false)]
pub fn clone_names(ns: &Vec<String>) -> (r: Vec<String>)
    ensures
        strings_view(r@) == strings_view(ns@),
{
    let mut r: Vec<String> = Vec::new();
    let mut i: usize = 0;
    while i < ns.len()
        invariant
            i <= ns@.len(),
            r@.len() == i,
            forall|j: int| 0 <= j < i ==> r@[j]@ == ns@[j]@,
        decreases ns@.len() - i,
    {
        r.push(ns[i].clone());
        i += 1;
    }
    proof {
        lemma_strings_view(r@);
        lemma_strings_view(ns@);
        assert(strings_view(r@) =~= strings_view(ns@));
    }
    r
}

/// Clones an expression, keeping its view.
#[verifier::loop_isolation(false)]
pub fn clone_expr(e: &Expr) -> (r: Expr)
    ensures
        expr_view(r) == expr_view(*e),
    decreases *e,
{
    match e {
        Expr::Literal(s) => Expr::Literal(s.clone()),
        Expr::Variable(s) => Expr::Variable(s.clone()),
        Expr::Template(s) => Expr::Template(s.clone()),
        Expr::Call { callee, arguments } => {
            let mut args: Vec<Expr> = Vec::new();
            let mut i: usize = 0;
            while i < arguments.len()
                invariant
                    i <= arguments@.len(),
                    args@.len() == i,
                    forall|j: int| 0 <= j < i
                        ==> expr_view(#[trigger] args@[j]) == expr_view(arguments@[j]),
                decreases arguments@.len() - i,
            {
                proof {
                    assert(decreases_to!(*e => e->Call_arguments));
                    assert(decreases_to!(e->Call_arguments => e->Call_arguments@));
                    assert(decreases_to!(e->Call_arguments@ => e->Call_arguments@[i as int]));
                    assert(decreases_to!(*e => arguments@[i as int]));
                }
                let a = clone_expr(&arguments[i]);
                args.push(a);
                i += 1;
            }
            proof {
                lemma_exprs_view(args@);
                lemma_exprs_view(arguments@);
                assert(exprs_view(args@) =~= exprs_view(arguments@));
            }
            Expr::Call { callee: callee.clone(), arguments: args }
        },
    }
}

/// Clones a statement, keeping its view.
#[verifier::loop_isolation(false)]
pub fn clone_stmt(s: &Stmt) -> (r: Stmt)
    ensures
        stmt_view(r) == stmt_view(*s),
    decreases *s,
{
    match s {
        Stmt::Init { name, params, body } => {
            let mut b: Vec<Stmt> = Vec::new();
            let mut i: usize = 0;
            while i < body.len()
                invariant
                    i <= body@.len(),
                    b@.len() == i,
                    forall|j: int| 0 <= j < i ==> stmt_view(#[trigger] b@[j]) == stmt_view(body@[j]),
                decreases body@.len() - i,
            {
                proof {
                    assert(decreases_to!(*s => s->Init_body));
                    assert(decreases_to!(s->Init_body => s->Init_body@));
                    assert(decreases_to!(s->Init_body@ => s->Init_body@[i as int]));
                    assert(decreases_to!(*s => body@[i as int]));
                }
                let st = clone_stmt(&body[i]);
                b.push(st);
                i += 1;
            }
            proof {
                lemma_stmts_view(b@);
                lemma_stmts_view(body@);
                assert(stmts_view(b@) =~= stmts_view(body@));
            }
            Stmt::Init { name: name.clone(), params: clone_names(params), body: b }
        },
        Stmt::Log { value } => Stmt::Log { value: clone_expr(value) },
        Stmt::ExprStmt(e) => Stmt::ExprStmt(clone_expr(e)),
    }
}

/// Clones a statement list, keeping its view.
#[verifier::loop_isolation(false)]
#[verifier::loop_isolation(false)]
pub fn clone_stmts(ss: &Vec<Stmt>) -> (r: Vec<Stmt>)
    ensures
        stmts_view(r@) == stmts_view(ss@),
{
    let mut r: Vec<Stmt> = Vec::new();
    let mut i: usize = 0;
    while i < ss.len()
        invariant
            i <= ss@.len(),
            r@.len() == i,
            forall|j: int| 0 <= j < i ==> stmt_view(#[trigger] r@[j]) == stmt_view(ss@[j]),
        decreases ss@.len() - i,
    {
        let st = clone_stmt(&ss[i]);
        r.push(st);
        i += 1;
    }
    proof {
        lemma_stmts_view(r@);
        lemma_stmts_view(ss@);
        assert(stmts_view(r@) =~= stmts_view(ss@));
    }
    r
}

/// The size of an expression: one per node, counting arguments.
pub open spec fn expr_size(e: ExprV) -> nat
    decreases e,
{
    match e {
        ExprV::Call { callee, arguments } => 1 + exprs_size(arguments),
        _ => 1,
    }
}

/// The summed size of an expression list.
pub open spec fn exprs_size(es: Seq<ExprV>) -> nat
    decreases es,
{
    if es.len() == 0 {
        0
    } else {
        expr_size(es[0]) + exprs_size(es.drop_first())
    }
}

/// The size of a statement: one per node, counting its expression or body.
pub open spec fn stmt_size(s: StmtV) -> nat
    decreases s,
{
    match s {
        StmtV::Init { name, params, body } => 1 + stmts_size(body),
        StmtV::Log { value } => 1 + expr_size(value),
        StmtV::ExprStmt(e) => 1 + expr_size(e),
    }
}

/// The summed size of a statement list.
pub open spec fn stmts_size(ss: Seq<StmtV>) -> nat
    decreases ss,
{
    if ss.len() == 0 {
        0
    } else {
        stmt_size(ss[0]) + stmts_size(ss.drop_first())
    }
}

/// Every element of an expression list weighs no more than the list.
pub proof fn lemma_exprs_size_element(es: Seq<ExprV>, i: int)
    requires
        0 <= i < es.len(),
    ensures
        expr_size(es[i]) <= exprs_size(es),
    decreases es.len(),
{
    if i > 0 {
        lemma_exprs_size_element(es.drop_first(), i - 1);
    }
}

/// A statement weighs at least one.
pub proof fn lemma_stmt_size_pos(s: StmtV)
    ensures
        stmt_size(s) >= 1,
{
}

/// An expression weighs at least one.
pub proof fn lemma_expr_size_pos(e: ExprV)
    ensures
        expr_size(e) >= 1,
{
}

} // verus!
