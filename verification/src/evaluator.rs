//! The evaluator: a tree-walking executor over a name/value environment.
//!
//! Execution maintains two tiers: a per-evaluator `globals` mapping, and a
//! per-run (or per-call) frame seeded from a snapshot of `globals`.  A
//! function call builds a brand-new frame from `globals` and the evaluated
//! arguments — never from the caller's frame, so there are no lexical
//! closures, and nothing a call binds leaks back into the caller.
//!
//! Output is not written anywhere: the evaluator returns the `log` lines it
//! produced, in program order, so the caller decides where they go.  Reading
//! an unbound variable degrades to the `"<undefined name>"` sentinel; calling
//! an unbound or non-function name is a fatal [`EvalError`].  Call nesting is
//! bounded by [`CALL_DEPTH_LIMIT`]: a script can tie a call loop through its
//! own argument, and an unbounded evaluator would overflow the stack there.
//!
//! The spec-level interpreter [`exec_stmts_v`] defines the environment,
//! output and error of every run; the exec [`Evaluator`] is proved to return
//! exactly that.

use vstd::prelude::*;

use crate::ast::{
    clone_names, clone_stmts, expr_size, expr_view, exprs_size, exprs_view, lemma_exprs_size_element,
    lemma_exprs_view, lemma_stmts_view, stmt_size, stmt_view, stmts_size, stmts_view, strings_view,
    Expr, ExprV, Stmt, StmtV,
};
use crate::text::push_char;
use crate::values::{clone_value, value_view, Value, ValueV};

verus! {

broadcast use vstd::std_specs::vec::group_vec_axioms;

/// How deeply calls may nest before the evaluator gives up; a guard against
/// unbounded recursion such as a function calling its own argument.
pub const CALL_DEPTH_LIMIT: usize = 64;

/// A fatal evaluation error.
#[derive(Debug)]
pub enum EvalError {
    /// A call to a name with no binding.
    UnboundCallee(String),
    /// A call to a name bound to a non-function value.
    NotCallable(String),
    /// A call nesting deeper than [`CALL_DEPTH_LIMIT`].
    CallDepthExceeded,
}

/// Spec-level mirror of [`EvalError`].
pub ghost enum EvalErrorV {
    UnboundCallee(Seq<char>),
    NotCallable(Seq<char>),
    CallDepthExceeded,
}

impl View for EvalError {
    type V = EvalErrorV;

    open spec fn view(&self) -> EvalErrorV {
        match self {
            EvalError::UnboundCallee(n) => EvalErrorV::UnboundCallee(n@),
            EvalError::NotCallable(n) => EvalErrorV::NotCallable(n@),
            EvalError::CallDepthExceeded => EvalErrorV::CallDepthExceeded,
        }
    }
}

/// A spec-level environment: name/value bindings in binding order, the
/// newest binding last.  A later binding for the same name shadows an
/// earlier one, so the mapping reads "last write wins".
pub type EnvV = Seq<(Seq<char>, ValueV)>;

/// Looks a name up: the newest binding wins.
pub open spec fn lookup_v(env: EnvV, name: Seq<char>) -> Option<ValueV>
    decreases env.len(),
{
    if env.len() == 0 {
        None
    } else if env.last().0 == name {
        Some(env.last().1)
    } else {
        lookup_v(env.drop_last(), name)
    }
}

/// How a value prints: text verbatim, `null`, and an opaque marker for
/// functions.
pub open spec fn stringify_v(v: ValueV) -> Seq<char> {
    match v {
        ValueV::Str(s) => s,
        ValueV::Null => "null"@,
        ValueV::Function { params, body } => "<function>"@,
    }
}

/// The sentinel produced for reading an unbound variable.
pub open spec fn undefined_sentinel(name: Seq<char>) -> Seq<char> {
    "<undefined "@ + name + ">"@
}

/// The position of the `}` that closes a template placeholder, or the end
/// of the text when it never closes.
pub open spec fn placeholder_end(raw: Seq<char>, pos: int) -> int
    decreases raw.len() - pos,
{
    if pos < 0 || pos >= raw.len() {
        raw.len() as int
    } else if raw[pos] == '}' {
        pos
    } else {
        placeholder_end(raw, pos + 1)
    }
}

/// `placeholder_end` stays within the text.
pub proof fn lemma_placeholder_end(raw: Seq<char>, pos: int)
    requires
        0 <= pos <= raw.len(),
    ensures
        pos <= placeholder_end(raw, pos) <= raw.len(),
    decreases raw.len() - pos,
{
    if 0 <= pos < raw.len() && raw[pos] != '}' {
        lemma_placeholder_end(raw, pos + 1);
    }
}

/// Template interpolation: `${name}` placeholders are replaced by the
/// stringified current value of `name`, or by nothing when `name` is
/// unbound; everything else, an isolated `$` included, is copied verbatim.
pub open spec fn interp_template_v(raw: Seq<char>, pos: int, env: EnvV, acc: Seq<char>) -> Seq<
    char,
>
    decreases raw.len() - pos,
{
    if pos < 0 || pos >= raw.len() {
        acc
    } else if raw[pos] == '$' && pos + 1 < raw.len() && raw[pos + 1] == '{' {
        let e = placeholder_end(raw, pos + 2);
        proof {
            lemma_placeholder_end(raw, pos + 2);
        }
        let name = raw.subrange(pos + 2, e);
        let sub = match lookup_v(env, name) {
            Some(v) => stringify_v(v),
            None => Seq::empty(),
        };
        interp_template_v(raw, if e < raw.len() { e + 1 } else { e }, env, acc + sub)
    } else {
        interp_template_v(raw, pos + 1, env, acc.push(raw[pos]))
    }
}

/// Binds parameters to argument values positionally; extra arguments are
/// dropped and missing ones leave their parameter unbound.
pub open spec fn bind_params_v(frame: EnvV, params: Seq<Seq<char>>, vals: Seq<ValueV>) -> EnvV
    decreases params.len(),
{
    if params.len() == 0 || vals.len() == 0 {
        frame
    } else {
        bind_params_v(frame.push((params[0], vals[0])), params.drop_first(), vals.drop_first())
    }
}

/// What executing one statement produces: the updated frame, the output
/// lines, and the error that stopped it, if any.
#[verifier::ext_equal]
pub ghost struct StepV {
    pub env: EnvV,
    pub out: Seq<Seq<char>>,
    pub err: Option<EvalErrorV>,
}

/// What evaluating one expression produces.
#[verifier::ext_equal]
pub ghost struct ExprOutV {
    pub val: ValueV,
    pub out: Seq<Seq<char>>,
    pub err: Option<EvalErrorV>,
}

/// What evaluating an argument list produces.
#[verifier::ext_equal]
pub ghost struct ArgsOutV {
    pub vals: Seq<ValueV>,
    pub out: Seq<Seq<char>>,
    pub err: Option<EvalErrorV>,
}

/// Executes one statement against a frame.  `Init` binds a function value
/// in the current frame; `Log` evaluates and prints; an expression
/// statement evaluates and discards.  A failing statement leaves the frame
/// as it stood and keeps the output produced before the failure.
pub open spec fn exec_stmt_v(s: StmtV, env: EnvV, globals: EnvV, fuel: nat) -> StepV
    decreases fuel, stmt_size(s), 2int,
{
    match s {
        StmtV::Init { name, params, body } => StepV {
            env: env.push((name, ValueV::Function { params, body })),
            out: Seq::empty(),
            err: None,
        },
        StmtV::Log { value } => {
            let r = eval_expr_v(value, env, globals, fuel);
            match r.err {
                Some(e) => StepV { env, out: r.out, err: Some(e) },
                None => StepV { env, out: r.out.push(stringify_v(r.val)), err: None },
            }
        },
        StmtV::ExprStmt(e0) => {
            let r = eval_expr_v(e0, env, globals, fuel);
            StepV { env, out: r.out, err: r.err }
        },
    }
}

/// Executes a statement sequence, threading the frame and concatenating
/// output, stopping at the first error.
pub open spec fn exec_stmts_v(ss: Seq<StmtV>, env: EnvV, globals: EnvV, fuel: nat) -> StepV
    decreases fuel, stmts_size(ss), 3int,
{
    if ss.len() == 0 {
        StepV { env, out: Seq::empty(), err: None }
    } else {
        let r0 = exec_stmt_v(ss[0], env, globals, fuel);
        match r0.err {
            Some(e) => r0,
            None => {
                proof {
                    crate::ast::lemma_stmt_size_pos(ss[0]);
                }
                let r1 = exec_stmts_v(ss.drop_first(), r0.env, globals, fuel);
                StepV { env: r1.env, out: r0.out + r1.out, err: r1.err }
            },
        }
    }
}

/// Evaluates one expression in a frame.  A literal is itself; a template is
/// interpolated against the current frame; a variable read degrades to the
/// sentinel when unbound; a call looks its callee up in the current frame,
/// evaluates every argument left to right in the current frame, then runs
/// the body in a fresh frame built from `globals` and the parameter
/// bindings, and is worth `Null`.
pub open spec fn eval_expr_v(e: ExprV, env: EnvV, globals: EnvV, fuel: nat) -> ExprOutV
    decreases fuel, expr_size(e), 0int,
{
    match e {
        ExprV::Literal(s) => ExprOutV { val: ValueV::Str(s), out: Seq::empty(), err: None },
        ExprV::Template(raw) => ExprOutV {
            val: ValueV::Str(interp_template_v(raw, 0, env, Seq::empty())),
            out: Seq::empty(),
            err: None,
        },
        ExprV::Variable(name) => match lookup_v(env, name) {
            Some(v) => ExprOutV { val: v, out: Seq::empty(), err: None },
            None => ExprOutV {
                val: ValueV::Str(undefined_sentinel(name)),
                out: Seq::empty(),
                err: None,
            },
        },
        ExprV::Call { callee, arguments } => match lookup_v(env, callee) {
            Some(ValueV::Function { params, body }) => {
                let a = eval_args_v(arguments, env, globals, fuel);
                match a.err {
                    Some(e2) => ExprOutV { val: ValueV::Null, out: a.out, err: Some(e2) },
                    None => {
                        if fuel == 0 {
                            ExprOutV {
                                val: ValueV::Null,
                                out: a.out,
                                err: Some(EvalErrorV::CallDepthExceeded),
                            }
                        } else {
                            let frame = bind_params_v(globals, params, a.vals);
                            let b = exec_stmts_v(body, frame, globals, (fuel - 1) as nat);
                            ExprOutV { val: ValueV::Null, out: a.out + b.out, err: b.err }
                        }
                    },
                }
            },
            Some(v) => ExprOutV {
                val: ValueV::Null,
                out: Seq::empty(),
                err: Some(EvalErrorV::NotCallable(callee)),
            },
            None => ExprOutV {
                val: ValueV::Null,
                out: Seq::empty(),
                err: Some(EvalErrorV::UnboundCallee(callee)),
            },
        },
    }
}

/// Evaluates an argument list left to right in the caller's frame,
/// stopping at the first error.
pub open spec fn eval_args_v(es: Seq<ExprV>, env: EnvV, globals: EnvV, fuel: nat) -> ArgsOutV
    decreases fuel, exprs_size(es), 1int,
{
    if es.len() == 0 {
        ArgsOutV { vals: Seq::empty(), out: Seq::empty(), err: None }
    } else {
        let r0 = eval_expr_v(es[0], env, globals, fuel);
        match r0.err {
            Some(e) => ArgsOutV { vals: Seq::empty(), out: r0.out, err: Some(e) },
            None => {
                proof {
                    crate::ast::lemma_expr_size_pos(es[0]);
                }
                let r1 = eval_args_v(es.drop_first(), env, globals, fuel);
                match r1.err {
                    Some(e) => ArgsOutV { vals: Seq::empty(), out: r0.out + r1.out, err: Some(e) },
                    None => ArgsOutV {
                        vals: seq![r0.val] + r1.vals,
                        out: r0.out + r1.out,
                        err: None,
                    },
                }
            },
        }
    }
}

/// One binding of an environment frame.
pub struct Binding {
    pub name: String,
    pub value: Value,
}

/// The deep view of a binding list.
pub open spec fn bindings_view(es: Seq<Binding>) -> EnvV
    decreases es.len(),
{
    if es.len() == 0 {
        Seq::empty()
    } else {
        seq![(es[0].name@, value_view(es[0].value))] + bindings_view(es.drop_first())
    }
}

/// `bindings_view` maps the list pointwise.
pub proof fn lemma_bindings_view(es: Seq<Binding>)
    ensures
        bindings_view(es).len() == es.len(),
        forall|i: int| 0 <= i < es.len() ==> bindings_view(es)[i] == (
            es[i].name@,
            value_view(es[i].value),
        ),
    decreases es.len(),
{
    if es.len() > 0 {
        lemma_bindings_view(es.drop_first());
    }
}

/// When no binding at or after `i` matches, lookup is decided by the prefix.
proof fn lemma_lookup_prefix(env: EnvV, name: Seq<char>, i: int)
    requires
        0 <= i <= env.len(),
        forall|j: int| i <= j < env.len() ==> (#[trigger] env[j]).0 != name,
    ensures
        lookup_v(env, name) == lookup_v(env.subrange(0, i), name),
    decreases env.len() - i,
{
    if i == env.len() {
        assert(env.subrange(0, i) =~= env);
    } else {
        assert(env.drop_last() =~= env.subrange(0, env.len() - 1));
        lemma_lookup_prefix(env.drop_last(), name, i);
        assert(env.drop_last().subrange(0, i) =~= env.subrange(0, i));
    }
}

/// A mutable name-to-value frame: bindings in insertion order, the newest
/// binding winning lookups.
pub struct Env {
    pub entries: Vec<Binding>,
}

impl View for Env {
    type V = EnvV;

    open spec fn view(&self) -> EnvV {
        bindings_view(self.entries@)
    }
}

impl Env {
    /// An empty frame.
    pub fn new() -> (r: Env)
        ensures
            r@ == Seq::<(Seq<char>, ValueV)>::empty(),
    {
        let r = Env { entries: Vec::new() };
        proof {
            assert(r@ =~= Seq::<(Seq<char>, ValueV)>::empty());
        }
        r
    }

    /// Adds a binding; it shadows any earlier binding of the same name.
    pub fn insert(&mut self, name: String, value: Value)
        ensures
            final(self)@ == old(self)@.push((name@, value_view(value))),
    {
        let ghost before = self.entries@;
        let ghost nv = name@;
        let ghost vv = value_view(value);
        self.entries.push(Binding { name, value });
        proof {
            lemma_bindings_view(self.entries@);
            lemma_bindings_view(before);
            assert(self@ =~= bindings_view(before).push((nv, vv)));
        }
    }

    /// Looks a name up: the newest binding wins.
    #[verifier::loop_isolation(false)]
    pub fn get(&self, name: &String) -> (r: Option<&Value>)
        ensures
            match r {
                Some(v) => lookup_v(self@, name@) == Some(value_view(*v)),
                None => lookup_v(self@, name@) is None,
            },
    {
        proof {
            lemma_bindings_view(self.entries@);
        }
        let mut i: usize = self.entries.len();
        loop
            invariant
                i <= self.entries@.len(),
                forall|j: int| i <= j < self.entries@.len() ==> (#[trigger] self@[j]).0 != name@,
            decreases i,
        {
            if i == 0 {
                break;
            }
            i = i - 1;
            if self.entries[i].name.eq(name) {
                proof {
                    lemma_lookup_prefix(self@, name@, i + 1);
                    assert(self@.subrange(0, i as int + 1).last() == self@[i as int]);
                    assert(self@.subrange(0, i as int + 1).drop_last() =~= self@.subrange(
                        0,
                        i as int,
                    ));
                }
                return Some(&self.entries[i].value);
            }
        }
        proof {
            lemma_lookup_prefix(self@, name@, 0);
            assert(self@.subrange(0, 0) =~= Seq::<(Seq<char>, ValueV)>::empty());
        }
        None
    }

    /// Copies a frame: a snapshot with the same bindings.
    #[verifier::loop_isolation(false)]
    pub fn clone_env(&self) -> (r: Env)
        ensures
            r@ == self@,
    {
        let mut entries: Vec<Binding> = Vec::new();
        let mut i: usize = 0;
        while i < self.entries.len()
            invariant
                i <= self.entries@.len(),
                entries@.len() == i,
                forall|j: int| 0 <= j < i ==> (#[trigger] entries@[j]).name@
                    == self.entries@[j].name@ && value_view(entries@[j].value) == value_view(
                    self.entries@[j].value,
                ),
            decreases self.entries@.len() - i,
        {
            let b = Binding {
                name: self.entries[i].name.clone(),
                value: clone_value(&self.entries[i].value),
            };
            entries.push(b);
            i += 1;
        }
        let r = Env { entries };
        proof {
            lemma_bindings_view(r.entries@);
            lemma_bindings_view(self.entries@);
            assert(r@ =~= self@);
        }
        r
    }
}

/// The tree-walking evaluator: owns the `globals` frame that every run and
/// every call frame starts from.
pub struct Evaluator {
    pub globals: Env,
}

impl Evaluator {
    /// A fresh evaluator with empty globals.
    pub fn new() -> (r: Evaluator)
        ensures
            r.globals@ == Seq::<(Seq<char>, ValueV)>::empty(),
    {
        Evaluator { globals: Env::new() }
    }

    /// How a value prints: text verbatim, `null`, an opaque function marker.
    fn stringify(&self, value: Value) -> (r: String)
        ensures
            r@ == stringify_v(value_view(value)),
    {
        match value {
            Value::Str(s) => s,
            Value::Null => "null".to_owned(),
            Value::Function { .. } => "<function>".to_owned(),
        }
    }

    /// Interpolates a template's `${name}` placeholders against a frame.
    #[verifier::loop_isolation(false)]
    fn interpolate_template(&self, template: &String, env: &Env) -> (r: String)
        ensures
            r@ == interp_template_v(template@, 0, env@, Seq::empty()),
    {
        let ghost raw = template@;
        let chars = crate::text::chars_of(template.as_str());
        let mut result = String::new();
        let mut i: usize = 0;
        loop
            invariant
                chars@ == raw,
                i <= raw.len(),
                interp_template_v(raw, 0, env@, Seq::empty()) == interp_template_v(
                    raw,
                    i as int,
                    env@,
                    result@,
                ),
            decreases raw.len() - i,
        {
            if i >= chars.len() {
                break;
            }
            let c = chars[i];
            let ghost pos = i as int;
            let ghost accg = result@;
            if c == '$' && i + 1 < chars.len() && chars[i + 1] == '{' {
                let mut j = i + 2;
                let mut name = String::new();
                proof {
                    lemma_placeholder_end(raw, pos + 2);
                    assert(name@ =~= raw.subrange(pos + 2, j as int));
                }
                loop
                    invariant
                        pos + 2 <= j <= raw.len(),
                        name@ == raw.subrange(pos + 2, j as int),
                        placeholder_end(raw, pos + 2) == placeholder_end(raw, j as int),
                    decreases raw.len() - j,
                {
                    if j >= chars.len() {
                        break;
                    }
                    if chars[j] == '}' {
                        break;
                    }
                    push_char(&mut name, chars[j]);
                    j = j + 1;
                    proof {
                        assert(name@ =~= raw.subrange(pos + 2, j as int));
                    }
                }
                let sub = match env.get(&name) {
                    Some(v) => self.stringify(clone_value(v)),
                    None => String::new(),
                };
                result.append(sub.as_str());
                if j < chars.len() {
                    j = j + 1;
                }
                i = j;
                proof {
                    assert(interp_template_v(raw, pos, env@, accg) == interp_template_v(
                        raw,
                        i as int,
                        env@,
                        result@,
                    ));
                }
            } else {
                push_char(&mut result, c);
                i = i + 1;
                proof {
                    assert(interp_template_v(raw, pos, env@, accg) == interp_template_v(
                        raw,
                        i as int,
                        env@,
                        result@,
                    ));
                }
            }
        }
        result
    }

    /// Executes one statement against a frame, appending output lines, as
    /// [`exec_stmt_v`] describes.
    #[verifier::loop_isolation(false)]
    fn execute(&self, stmt: &Stmt, env: &mut Env, out: &mut Vec<String>, fuel: usize) -> (r:
        Option<EvalError>)
        ensures
            ({
                let st = exec_stmt_v(stmt_view(*stmt), old(env)@, self.globals@, fuel as nat);
                &&& final(env)@ == st.env
                &&& strings_view(final(out)@) == strings_view(old(out)@) + st.out
                &&& match r {
                    Some(e) => st.err == Some(e@),
                    None => st.err is None,
                }
            }),
        decreases fuel, stmt_size(stmt_view(*stmt)), 1int,
    {
        match stmt {
            Stmt::Init { name, params, body } => {
                let value = Value::Function { params: clone_names(params), body: clone_stmts(body) };
                let ghost outb = out@;
                env.insert(name.clone(), value);
                proof {
                    assert(strings_view(out@) =~= strings_view(outb) + Seq::<Seq<char>>::empty());
                }
                None
            },
            Stmt::Log { value } => {
                let ghost outb = out@;
                match self.eval_expr(value, env, out, fuel) {
                    Ok(v) => {
                        let ghost outm = out@;
                        let line = self.stringify(v);
                        let ghost linev = line@;
                        out.push(line);
                        proof {
                            let evv = eval_expr_v(expr_view(*value), env@, self.globals@, fuel as nat);
                            crate::ast::lemma_strings_view(out@);
                            crate::ast::lemma_strings_view(outm);
                            assert(strings_view(out@) =~= strings_view(outm).push(linev));
                            assert(strings_view(outm).push(linev) =~= strings_view(outb)
                                + evv.out.push(linev));
                        }
                        None
                    },
                    Err(e) => Some(e),
                }
            },
            Stmt::ExprStmt(e0) => match self.eval_expr(e0, env, out, fuel) {
                Ok(_) => None,
                Err(e) => Some(e),
            },
        }
    }

    /// Evaluates one expression in a frame, appending any output produced
    /// by calls inside it, as [`eval_expr_v`] describes.
    #[verifier::loop_isolation(false)]
    #[verifier::rlimit(100)]
    fn eval_expr(&self, expr: &Expr, env: &Env, out: &mut Vec<String>, fuel: usize) -> (r: Result<
        Value,
        EvalError,
    >)
        ensures
            ({
                let ev = eval_expr_v(expr_view(*expr), env@, self.globals@, fuel as nat);
                &&& strings_view(final(out)@) == strings_view(old(out)@) + ev.out
                &&& match r {
                    Ok(v) => ev.err is None && value_view(v) == ev.val,
                    Err(e) => ev.err == Some(e@),
                }
            }),
        decreases fuel, expr_size(expr_view(*expr)), 0int,
    {
        let ghost genv = self.globals@;
        match expr {
            Expr::Literal(s) => {
                proof {
                    assert(strings_view(out@) =~= strings_view(out@) + Seq::<Seq<char>>::empty());
                }
                Ok(Value::Str(s.clone()))
            },
            Expr::Template(raw) => {
                let text = self.interpolate_template(raw, env);
                proof {
                    assert(strings_view(out@) =~= strings_view(out@) + Seq::<Seq<char>>::empty());
                }
                Ok(Value::Str(text))
            },
            Expr::Variable(name) => {
                proof {
                    assert(strings_view(out@) =~= strings_view(out@) + Seq::<Seq<char>>::empty());
                }
                match env.get(name) {
                    Some(v) => Ok(clone_value(v)),
                    None => {
                        let mut s = "<undefined ".to_owned();
                        s.append(name.as_str());
                        s.append(">");
                        Ok(Value::Str(s))
                    },
                }
            },
            Expr::Call { callee, arguments } => {
                let ghost ev = eval_expr_v(expr_view(*expr), env@, genv, fuel as nat);
                let ghost argsv = exprs_view(arguments@);
                proof {
                    lemma_exprs_view(arguments@);
                }
                let (params, body) = match env.get(callee) {
                    Some(v) => match v {
                        Value::Function { params, body } => (clone_names(params), clone_stmts(
                            body,
                        )),
                        _ => {
                            proof {
                                assert(strings_view(out@) =~= strings_view(out@) + Seq::<
                                    Seq<char>,
                                >::empty());
                            }
                            return Err(EvalError::NotCallable(callee.clone()));
                        },
                    },
                    None => {
                        proof {
                            assert(strings_view(out@) =~= strings_view(out@) + Seq::<
                                Seq<char>,
                            >::empty());
                        }
                        return Err(EvalError::UnboundCallee(callee.clone()));
                    },
                };
                let ghost paramsv = strings_view(params@);
                let ghost bodyv = stmts_view(body@);
                let ghost atotal = eval_args_v(argsv, env@, genv, fuel as nat);
                let ghost out0 = out@;
                let mut vals: Vec<Value> = Vec::new();
                let mut k: usize = 0;
                proof {
                    assert(argsv.skip(0) =~= argsv);
                    crate::values::lemma_values_view(vals@);
                    assert(crate::values::values_view(vals@) + atotal.vals =~= atotal.vals);
                }
                loop
                    invariant
                        k <= arguments@.len(),
                        ({
                            let rest = eval_args_v(
                                argsv.skip(k as int),
                                env@,
                                genv,
                                fuel as nat,
                            );
                            &&& atotal.err == rest.err
                            &&& strings_view(out0) + atotal.out == strings_view(out@) + rest.out
                            &&& (rest.err is None ==> atotal.vals == crate::values::values_view(
                                vals@,
                            ) + rest.vals)
                        }),
                    decreases arguments@.len() - k,
                {
                    if k >= arguments.len() {
                        break;
                    }
                    let ghost restb = eval_args_v(argsv.skip(k as int), env@, genv, fuel as nat);
                    let ghost outb = out@;
                    let ghost valsb = vals@;
                    proof {
                        assert(argsv.skip(k as int)[0] == argsv[k as int]);
                        assert(argsv.skip(k as int)[0] == expr_view(arguments@[k as int]));
                        assert(argsv.skip(k as int).drop_first() =~= argsv.skip(k as int + 1));
                        crate::ast::lemma_exprs_size_element(argsv, k as int);
                    }
                    let a = match self.eval_expr(&arguments[k], env, out, fuel) {
                        Ok(a) => a,
                        Err(e) => {
                            return Err(e);
                        },
                    };
                    vals.push(a);
                    k = k + 1;
                    proof {
                        crate::values::lemma_values_view(vals@);
                        crate::values::lemma_values_view(valsb);
                        let rest = eval_args_v(argsv.skip(k as int), env@, genv, fuel as nat);
                        if rest.err is None {
                            assert(crate::values::values_view(valsb) + (seq![
                                value_view(vals@[vals@.len() - 1]),
                            ] + rest.vals) =~= crate::values::values_view(vals@) + rest.vals);
                        }
                    }
                }
                proof {
                    assert(argsv.skip(arguments@.len() as int) =~= Seq::<ExprV>::empty());
                    assert(crate::values::values_view(vals@) + Seq::<ValueV>::empty()
                        =~= crate::values::values_view(vals@));
                    assert(atotal.vals == crate::values::values_view(vals@));
                }
                if fuel == 0 {
                    return Err(EvalError::CallDepthExceeded);
                }
                let mut frame = self.globals.clone_env();
                let mut j: usize = 0;
                proof {
                    assert(paramsv.skip(0) =~= paramsv);
                    assert(crate::values::values_view(vals@).skip(0) =~= crate::values::values_view(
                        vals@,
                    ));
                }
                loop
                    invariant
                        j <= params@.len(),
                        j <= vals@.len(),
                        bind_params_v(genv, paramsv, crate::values::values_view(vals@))
                            == bind_params_v(
                            frame@,
                            paramsv.skip(j as int),
                            crate::values::values_view(vals@).skip(j as int),
                        ),
                    decreases params@.len() - j,
                {
                    proof {
                        crate::ast::lemma_strings_view(params@);
                        crate::values::lemma_values_view(vals@);
                    }
                    if j >= params.len() {
                        break;
                    }
                    if j >= vals.len() {
                        break;
                    }
                    let ghost framev = frame@;
                    frame.insert(params[j].clone(), clone_value(&vals[j]));
                    j = j + 1;
                    proof {
                        let pv = paramsv.skip(j as int - 1);
                        let vv = crate::values::values_view(vals@).skip(j as int - 1);
                        assert(pv[0] == paramsv[j as int - 1]);
                        assert(vv[0] == crate::values::values_view(vals@)[j as int - 1]);
                        assert(pv.drop_first() =~= paramsv.skip(j as int));
                        assert(vv.drop_first() =~= crate::values::values_view(vals@).skip(
                            j as int,
                        ));
                        assert(bind_params_v(framev, pv, vv) == bind_params_v(
                            frame@,
                            paramsv.skip(j as int),
                            crate::values::values_view(vals@).skip(j as int),
                        ));
                    }
                }
                proof {
                    crate::ast::lemma_strings_view(params@);
                    crate::values::lemma_values_view(vals@);
                    if j >= params@.len() {
                        assert(paramsv.skip(j as int) =~= Seq::<Seq<char>>::empty());
                    } else {
                        assert(crate::values::values_view(vals@).skip(j as int) =~= Seq::<
                            ValueV,
                        >::empty());
                    }
                    assert(frame@ == bind_params_v(genv, paramsv, crate::values::values_view(
                        vals@,
                    )));
                }
                let ghost btotal = exec_stmts_v(bodyv, frame@, genv, (fuel - 1) as nat);
                let ghost out1 = out@;
                let mut m: usize = 0;
                proof {
                    lemma_stmts_view(body@);
                    assert(bodyv.skip(0) =~= bodyv);
                }
                loop
                    invariant
                        m <= body@.len(),
                        ({
                            let rest = exec_stmts_v(
                                bodyv.skip(m as int),
                                frame@,
                                genv,
                                (fuel - 1) as nat,
                            );
                            &&& btotal.err == rest.err
                            &&& strings_view(out1) + btotal.out == strings_view(out@) + rest.out
                            &&& (rest.err is None ==> btotal.env == rest.env)
                        }),
                    decreases body@.len() - m,
                {
                    if m >= body.len() {
                        break;
                    }
                    let ghost outb = out@;
                    let ghost framevb = frame@;
                    proof {
                        lemma_stmts_view(body@);
                        assert(bodyv.skip(m as int)[0] == bodyv[m as int]);
                        assert(bodyv.skip(m as int)[0] == stmt_view(body@[m as int]));
                        assert(bodyv.skip(m as int).drop_first() =~= bodyv.skip(m as int + 1));
                    }
                    match self.execute(&body[m], &mut frame, out, fuel - 1) {
                        None => {},
                        Some(e) => {
                            return Err(e);
                        },
                    }
                    m = m + 1;
                }
                proof {
                    assert(bodyv.skip(body@.len() as int) =~= Seq::<StmtV>::empty());
                }
                Ok(Value::Null)
            },
        }
    }

    /// Runs a program: executes its statements in order against a fresh
    /// frame seeded from `globals`, and returns the output lines together
    /// with the error that stopped the run, if any.  `globals` itself is
    /// never changed: top-level declarations bind in the run's frame, which
    /// is discarded afterwards.
    #[verifier::loop_isolation(false)]
    pub fn evaluate(&mut self, program: Vec<Stmt>) -> (r: (Vec<String>, Option<EvalError>))
        ensures
            final(self).globals@ == old(self).globals@,
            ({
                let st = exec_stmts_v(
                    stmts_view(program@),
                    old(self).globals@,
                    old(self).globals@,
                    CALL_DEPTH_LIMIT as nat,
                );
                &&& strings_view(r.0@) == st.out
                &&& match r.1 {
                    Some(e) => st.err == Some(e@),
                    None => st.err is None,
                }
            }),
    {
        let ghost progv = stmts_view(program@);
        let ghost genv = self.globals@;
        let ghost total = exec_stmts_v(progv, genv, genv, CALL_DEPTH_LIMIT as nat);
        let mut env = self.globals.clone_env();
        let mut out: Vec<String> = Vec::new();
        let mut i: usize = 0;
        proof {
            crate::ast::lemma_stmts_view(program@);
            assert(strings_view(out@) =~= Seq::<Seq<char>>::empty());
        }
        proof {
            assert(progv.skip(0) =~= progv);
        }
        loop
            invariant
                i <= program@.len(),
                ({
                    let rest = exec_stmts_v(
                        progv.skip(i as int),
                        env@,
                        genv,
                        CALL_DEPTH_LIMIT as nat,
                    );
                    &&& total.err == rest.err
                    &&& total.out == strings_view(out@) + rest.out
                    &&& (rest.err is None ==> total.env == rest.env)
                }),
            decreases program@.len() - i,
        {
            if i >= program.len() {
                break;
            }
            let ghost outb = out@;
            let ghost envb = env@;
            proof {
                assert(progv.skip(i as int)[0] == progv[i as int]);
                assert(progv.skip(i as int)[0] == stmt_view(program@[i as int]));
                assert(progv.skip(i as int).drop_first() =~= progv.skip(i as int + 1));
            }
            match self.execute(&program[i], &mut env, &mut out, CALL_DEPTH_LIMIT) {
                None => {},
                Some(e) => {
                    return (out, Some(e));
                },
            }
            i = i + 1;
        }
        proof {
            assert(progv.skip(program@.len() as int) =~= Seq::<StmtV>::empty());
        }
        (out, None)
    }
}

/// Reading an unbound variable is never an error: it evaluates to the
/// `"<undefined name>"` sentinel value.
pub proof fn lemma_unbound_variable_sentinel(name: Seq<char>, env: EnvV, globals: EnvV, fuel: nat)
    requires
        lookup_v(env, name) is None,
    ensures
        eval_expr_v(ExprV::Variable(name), env, globals, fuel) == (ExprOutV {
            val: ValueV::Str(undefined_sentinel(name)),
            out: Seq::<Seq<char>>::empty(),
            err: None::<EvalErrorV>,
        }),
{
}

/// Calling an undeclared name is a fatal error, with no output produced.
pub proof fn lemma_unbound_callee_fatal(
    callee: Seq<char>,
    arguments: Seq<ExprV>,
    env: EnvV,
    globals: EnvV,
    fuel: nat,
)
    requires
        lookup_v(env, callee) is None,
    ensures
        eval_expr_v(ExprV::Call { callee, arguments }, env, globals, fuel).err == Some(
            EvalErrorV::UnboundCallee(callee),
        ),
        eval_expr_v(ExprV::Call { callee, arguments }, env, globals, fuel).out
            == Seq::<Seq<char>>::empty(),
{
}

/// Calling a name bound to a non-function value is a fatal error, with no
/// output produced.
pub proof fn lemma_not_callable_fatal(
    callee: Seq<char>,
    arguments: Seq<ExprV>,
    env: EnvV,
    globals: EnvV,
    fuel: nat,
)
    requires
        lookup_v(env, callee) is Some,
        !(lookup_v(env, callee)->0 is Function),
    ensures
        eval_expr_v(ExprV::Call { callee, arguments }, env, globals, fuel).err == Some(
            EvalErrorV::NotCallable(callee),
        ),
        eval_expr_v(ExprV::Call { callee, arguments }, env, globals, fuel).out
            == Seq::<Seq<char>>::empty(),
{
}

/// Frame isolation: only a declaration changes the frame it runs in.  In
/// particular a call statement leaves the caller's frame untouched: the
/// parameters bound for the call and any `Init` executed inside its body
/// live in the callee's frame alone and are discarded when the call
/// returns.
pub proof fn lemma_frame_isolation(s: StmtV, env: EnvV, globals: EnvV, fuel: nat)
    requires
        !(s is Init),
    ensures
        exec_stmt_v(s, env, globals, fuel).env == env,
{
}

/// A declaration whose body is a single `log` of a literal or template.
pub open spec fn is_single_log_decl(s: StmtV) -> bool {
    &&& s is Init
    &&& s->Init_body.len() == 1
    &&& s->Init_body[0] is Log
    &&& (s->Init_body[0]->Log_value is Literal || s->Init_body[0]->Log_value is Template)
}

/// A top-level call whose arguments are all string literals.
pub open spec fn is_literal_call(s: StmtV) -> bool {
    &&& s is ExprStmt
    &&& s->ExprStmt_0 is Call
    &&& forall|i: int| 0 <= i < s->ExprStmt_0->Call_arguments.len() ==> (
        #[trigger] s->ExprStmt_0->Call_arguments[i]) is Literal
}

/// The bindings that a sequence of declarations adds to a frame, in order.
pub open spec fn inits_env(ss: Seq<StmtV>) -> EnvV
    decreases ss.len(),
{
    if ss.len() == 0 {
        Seq::empty()
    } else {
        seq![
            (
                ss[0]->Init_name,
                ValueV::Function { params: ss[0]->Init_params, body: ss[0]->Init_body },
            ),
        ] + inits_env(ss.drop_first())
    }
}

/// The values of an all-literal argument list.
pub open spec fn literal_vals(args: Seq<ExprV>) -> Seq<ValueV>
    decreases args.len(),
{
    if args.len() == 0 {
        Seq::empty()
    } else {
        seq![ValueV::Str(args[0]->Literal_0)] + literal_vals(args.drop_first())
    }
}

/// The one line that calling a single-`log` function prints: the logged
/// literal itself, or the logged template interpolated against the call
/// frame alone — globals plus the parameters bound to the call's argument
/// values.
pub open spec fn call_line(callee: Seq<char>, args: Seq<ExprV>, env: EnvV, globals: EnvV) -> Seq<
    char,
> {
    let f = lookup_v(env, callee)->0;
    let frame = bind_params_v(globals, f->Function_params, literal_vals(args));
    let logged = f->Function_body[0]->Log_value;
    if logged is Literal {
        logged->Literal_0
    } else {
        interp_template_v(logged->Template_0, 0, frame, Seq::empty())
    }
}

/// Executing declarations only extends the frame with their bindings, in
/// order, with no output and no error.
proof fn lemma_exec_decls(decls: Seq<StmtV>, env: EnvV, globals: EnvV, fuel: nat)
    requires
        forall|i: int| 0 <= i < decls.len() ==> #[trigger] decls[i] is Init,
    ensures
        exec_stmts_v(decls, env, globals, fuel) == (StepV {
            env: env + inits_env(decls),
            out: Seq::<Seq<char>>::empty(),
            err: None::<EvalErrorV>,
        }),
    decreases decls.len(),
{
    if decls.len() == 0 {
        assert(env + inits_env(decls) =~= env);
        assert(exec_stmts_v(decls, env, globals, fuel) =~= (StepV {
            env: env + inits_env(decls),
            out: Seq::<Seq<char>>::empty(),
            err: None::<EvalErrorV>,
        }));
    } else {
        let s0 = decls[0];
        assert(s0 is Init);
        let env1 = env.push((s0->Init_name, ValueV::Function { params: s0->Init_params, body: s0->Init_body }));
        let r0 = exec_stmt_v(s0, env, globals, fuel);
        assert(r0 =~= (StepV { env: env1, out: Seq::<Seq<char>>::empty(), err: None::<EvalErrorV> }));
        assert forall|i: int| 0 <= i < decls.drop_first().len() implies #[trigger] decls.drop_first()[i] is Init by {
            assert(decls.drop_first()[i] == decls[i + 1]);
        }
        lemma_exec_decls(decls.drop_first(), env1, globals, fuel);
        assert(env1 + inits_env(decls.drop_first()) =~= env + inits_env(decls));
        assert(Seq::<Seq<char>>::empty() + Seq::<Seq<char>>::empty()
            =~= Seq::<Seq<char>>::empty());
        assert(exec_stmts_v(decls, env, globals, fuel) =~= (StepV {
            env: env + inits_env(decls),
            out: Seq::<Seq<char>>::empty(),
            err: None::<EvalErrorV>,
        }));
    }
}

/// Every binding that declarations add is a function value carrying the
/// parameters and body of one of them.
proof fn lemma_inits_env_lookup(decls: Seq<StmtV>, name: Seq<char>)
    requires
        forall|i: int| 0 <= i < decls.len() ==> #[trigger] decls[i] is Init,
        lookup_v(inits_env(decls), name) is Some,
    ensures
        exists|i: int|
            0 <= i < decls.len() && lookup_v(inits_env(decls), name) == Some(
                ValueV::Function {
                    params: (#[trigger] decls[i])->Init_params,
                    body: decls[i]->Init_body,
                },
            ),
    decreases decls.len(),
{
    lemma_inits_env_shape(decls);
    let e = inits_env(decls);
    if decls.len() > 0 {
        let j = decls.len() - 1;
        assert(e.last() == e[j]);
        if e.last().0 == name {
            assert(lookup_v(e, name) == Some(
                ValueV::Function { params: decls[j]->Init_params, body: decls[j]->Init_body },
            ));
        } else {
            let dd = decls.drop_last();
            let e2 = inits_env(dd);
            lemma_inits_env_shape(dd);
            assert(e.drop_last() =~= e2);
            assert(lookup_v(e, name) == lookup_v(e2, name));
            lemma_inits_env_lookup(dd, name);
            let i = choose|i: int|
                0 <= i < dd.len() && lookup_v(inits_env(dd), name) == Some(
                    ValueV::Function {
                        params: (#[trigger] dd[i])->Init_params,
                        body: dd[i]->Init_body,
                    },
                );
            assert(dd[i] == decls[i]);
            assert(lookup_v(e, name) == Some(
                ValueV::Function { params: decls[i]->Init_params, body: decls[i]->Init_body },
            ));
        }
    }
}

/// `inits_env` maps the declarations pointwise.
proof fn lemma_inits_env_shape(decls: Seq<StmtV>)
    ensures
        inits_env(decls).len() == decls.len(),
        forall|i: int| 0 <= i < decls.len() ==> #[trigger] inits_env(decls)[i] == (
            decls[i]->Init_name,
            ValueV::Function { params: decls[i]->Init_params, body: decls[i]->Init_body },
        ),
    decreases decls.len(),
{
    if decls.len() > 0 {
        lemma_inits_env_shape(decls.drop_first());
        assert forall|i: int| 0 <= i < decls.len() implies #[trigger] inits_env(decls)[i] == (
            decls[i]->Init_name,
            ValueV::Function { params: decls[i]->Init_params, body: decls[i]->Init_body },
        ) by {
            if i > 0 {
                assert(inits_env(decls)[i] == inits_env(decls.drop_first())[i - 1]);
                assert(decls.drop_first()[i - 1] == decls[i]);
            }
        }
    }
}

/// Evaluating all-literal arguments yields their values with no output and
/// no error.
proof fn lemma_eval_literal_args(args: Seq<ExprV>, env: EnvV, globals: EnvV, fuel: nat)
    requires
        forall|i: int| 0 <= i < args.len() ==> (#[trigger] args[i]) is Literal,
    ensures
        eval_args_v(args, env, globals, fuel) == (ArgsOutV {
            vals: literal_vals(args),
            out: Seq::<Seq<char>>::empty(),
            err: None::<EvalErrorV>,
        }),
    decreases args.len(),
{
    if args.len() > 0 {
        assert forall|i: int|
            0 <= i < args.drop_first().len() implies (#[trigger] args.drop_first()[i])
            is Literal by {
            assert(args.drop_first()[i] == args[i + 1]);
        }
        lemma_eval_literal_args(args.drop_first(), env, globals, fuel);
        assert(args[0] is Literal);
        let r0 = eval_expr_v(args[0], env, globals, fuel);
        assert(r0.err is None);
        assert(r0.val == ValueV::Str(args[0]->Literal_0));
        assert(r0.out == Seq::<Seq<char>>::empty());
        let r1 = eval_args_v(args.drop_first(), env, globals, fuel);
        assert(r1.err is None);
        assert(seq![r0.val] + r1.vals == literal_vals(args));
        assert(Seq::<Seq<char>>::empty() + Seq::<Seq<char>>::empty()
            =~= Seq::<Seq<char>>::empty());
    }
    assert(eval_args_v(args, env, globals, fuel) =~= (ArgsOutV {
        vals: literal_vals(args),
        out: Seq::<Seq<char>>::empty(),
        err: None::<EvalErrorV>,
    }));
}

/// Calling a declared single-`log` function prints exactly its line and
/// changes nothing else.
proof fn lemma_exec_one_call(s: StmtV, env: EnvV, globals: EnvV, fuel: nat)
    requires
        is_literal_call(s),
        fuel >= 1,
        lookup_v(env, s->ExprStmt_0->Call_callee) is Some,
        (lookup_v(env, s->ExprStmt_0->Call_callee)->0) is Function,
        ({
            let f = lookup_v(env, s->ExprStmt_0->Call_callee)->0;
            &&& f->Function_body.len() == 1
            &&& f->Function_body[0] is Log
            &&& (f->Function_body[0]->Log_value is Literal || f->Function_body[0]->Log_value
                is Template)
        }),
    ensures
        exec_stmt_v(s, env, globals, fuel) == (StepV {
            env,
            out: seq![
                call_line(s->ExprStmt_0->Call_callee, s->ExprStmt_0->Call_arguments, env, globals),
            ],
            err: None::<EvalErrorV>,
        }),
{
    let callee = s->ExprStmt_0->Call_callee;
    let args = s->ExprStmt_0->Call_arguments;
    let f = lookup_v(env, callee)->0;
    lemma_eval_literal_args(args, env, globals, fuel);
    let frame = bind_params_v(globals, f->Function_params, literal_vals(args));
    let body = f->Function_body;
    assert(body.drop_first() =~= Seq::<StmtV>::empty());
    let b0 = exec_stmt_v(body[0], frame, globals, (fuel - 1) as nat);
    let logged = body[0]->Log_value;
    let rv = eval_expr_v(logged, frame, globals, (fuel - 1) as nat);
    assert(rv.err is None);
    assert(stringify_v(rv.val) == call_line(callee, args, env, globals));
    assert(b0.err is None);
    assert(b0.env == frame);
    assert(b0.out == seq![call_line(callee, args, env, globals)]) by {
        assert(Seq::<Seq<char>>::empty().push(call_line(callee, args, env, globals)) =~= seq![
            call_line(callee, args, env, globals),
        ]);
    }
    let b = exec_stmts_v(body, frame, globals, (fuel - 1) as nat);
    assert(exec_stmts_v(body.drop_first(), b0.env, globals, (fuel - 1) as nat).out
        == Seq::<Seq<char>>::empty());
    assert(b.err is None);
    assert(b.out =~= seq![call_line(callee, args, env, globals)]);
    assert(exec_stmt_v(s, env, globals, fuel).out =~= seq![call_line(callee, args, env, globals)]);
    assert(exec_stmt_v(s, env, globals, fuel) =~= (StepV {
        env,
        out: seq![call_line(callee, args, env, globals)],
        err: None::<EvalErrorV>,
    }));
}

/// Executing a sequence of such calls prints one line per call, in order.
proof fn lemma_exec_calls(calls: Seq<StmtV>, decls: Seq<StmtV>, env: EnvV, globals: EnvV, fuel: nat)
    requires
        fuel >= 1,
        forall|i: int| 0 <= i < decls.len() ==> #[trigger] decls[i] is Init,
        forall|i: int| 0 <= i < decls.len() ==> is_single_log_decl(#[trigger] decls[i]),
        env == inits_env(decls),
        forall|i: int| 0 <= i < calls.len() ==> is_literal_call(#[trigger] calls[i]),
        forall|i: int| 0 <= i < calls.len() ==> lookup_v(
            env,
            (#[trigger] calls[i])->ExprStmt_0->Call_callee,
        ) is Some,
    ensures
        ({
            let st = exec_stmts_v(calls, env, globals, fuel);
            &&& st.err is None
            &&& st.env == env
            &&& st.out.len() == calls.len()
            &&& forall|i: int| 0 <= i < calls.len() ==> st.out[i] == call_line(
                (#[trigger] calls[i])->ExprStmt_0->Call_callee,
                calls[i]->ExprStmt_0->Call_arguments,
                env,
                globals,
            )
        }),
    decreases calls.len(),
{
    if calls.len() > 0 {
        let c0 = calls[0];
        let callee = c0->ExprStmt_0->Call_callee;
        lemma_inits_env_lookup(decls, callee);
        let i = choose|i: int|
            0 <= i < decls.len() && lookup_v(inits_env(decls), callee) == Some(
                ValueV::Function {
                    params: (#[trigger] decls[i])->Init_params,
                    body: decls[i]->Init_body,
                },
            );
        assert(is_single_log_decl(decls[i]));
        lemma_exec_one_call(c0, env, globals, fuel);
        lemma_exec_calls(calls.drop_first(), decls, env, globals, fuel);
        let st = exec_stmts_v(calls, env, globals, fuel);
        let rest = exec_stmts_v(calls.drop_first(), env, globals, fuel);
        assert(st.out =~= seq![call_line(callee, c0->ExprStmt_0->Call_arguments, env, globals)]
            + rest.out);
        assert forall|k: int| 0 <= k < calls.len() implies st.out[k] == call_line(
            (#[trigger] calls[k])->ExprStmt_0->Call_callee,
            calls[k]->ExprStmt_0->Call_arguments,
            env,
            globals,
        ) by {
            if k > 0 {
                assert(calls.drop_first()[k - 1] == calls[k]);
                assert(st.out[k] == rest.out[k - 1]);
            }
        }
    }
}

/// Round-trip: a program made of single-`log` declarations followed by
/// calls of declared names with string-literal arguments runs without
/// error from an empty environment and prints exactly one line per call:
/// the declaration's logged text, with each `${param}` placeholder
/// replaced by the matching call-time argument and every other placeholder
/// replaced by nothing.
pub proof fn lemma_round_trip(decls: Seq<StmtV>, calls: Seq<StmtV>, fuel: nat)
    requires
        fuel >= 1,
        forall|i: int| 0 <= i < decls.len() ==> is_single_log_decl(#[trigger] decls[i]),
        forall|i: int| 0 <= i < calls.len() ==> is_literal_call(#[trigger] calls[i]),
        forall|i: int| 0 <= i < calls.len() ==> lookup_v(
            inits_env(decls),
            (#[trigger] calls[i])->ExprStmt_0->Call_callee,
        ) is Some,
    ensures
        ({
            let empty_env = Seq::<(Seq<char>, ValueV)>::empty();
            let st = exec_stmts_v(decls + calls, empty_env, empty_env, fuel);
            &&& st.err is None
            &&& st.out.len() == calls.len()
            &&& forall|i: int| 0 <= i < calls.len() ==> st.out[i] == call_line(
                (#[trigger] calls[i])->ExprStmt_0->Call_callee,
                calls[i]->ExprStmt_0->Call_arguments,
                inits_env(decls),
                empty_env,
            )
        }),
{
    let empty_env = Seq::<(Seq<char>, ValueV)>::empty();
    assert forall|i: int| 0 <= i < decls.len() implies #[trigger] decls[i] is Init by {
        assert(is_single_log_decl(decls[i]));
    }
    lemma_exec_decls(decls, empty_env, empty_env, fuel);
    lemma_exec_split(decls, calls, empty_env, empty_env, fuel);
    assert(empty_env + inits_env(decls) =~= inits_env(decls));
    lemma_exec_calls(calls, decls, inits_env(decls), empty_env, fuel);
    let st = exec_stmts_v(decls + calls, empty_env, empty_env, fuel);
    let stc = exec_stmts_v(calls, inits_env(decls), empty_env, fuel);
    assert(st.out =~= stc.out);
}

/// Executing a concatenation runs the first part, then the second in the
/// frame the first one left, provided the first part succeeds.
proof fn lemma_exec_split(a: Seq<StmtV>, b: Seq<StmtV>, env: EnvV, globals: EnvV, fuel: nat)
    requires
        exec_stmts_v(a, env, globals, fuel).err is None,
    ensures
        ({
            let ra = exec_stmts_v(a, env, globals, fuel);
            let rb = exec_stmts_v(b, ra.env, globals, fuel);
            exec_stmts_v(a + b, env, globals, fuel) == (StepV {
                env: rb.env,
                out: ra.out + rb.out,
                err: rb.err,
            })
        }),
    decreases a.len(),
{
    let ra = exec_stmts_v(a, env, globals, fuel);
    let rb = exec_stmts_v(b, ra.env, globals, fuel);
    if a.len() == 0 {
        assert(a + b =~= b);
        assert(Seq::<Seq<char>>::empty() + rb.out =~= rb.out);
    } else {
        let r0 = exec_stmt_v(a[0], env, globals, fuel);
        assert((a + b)[0] == a[0]);
        assert((a + b).drop_first() =~= a.drop_first() + b);
        lemma_exec_split(a.drop_first(), b, r0.env, globals, fuel);
        let ra1 = exec_stmts_v(a.drop_first(), r0.env, globals, fuel);
        assert(r0.out + (ra1.out + rb.out) =~= (r0.out + ra1.out) + rb.out);
    }
}

} // verus!
