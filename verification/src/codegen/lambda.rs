pub mod code;
pub mod data_stack;
pub mod either;
pub mod instruction;
pub mod io_command;
pub mod list;
pub mod locals;
pub mod number;
pub mod memory;
pub mod optional;
pub mod pair;
pub mod reduction;
pub mod evaluation;
pub mod scope;
pub mod stack;
pub mod table;
pub mod tree;
pub mod unsafe_list;

use vstd::prelude::*;

verus! {

/// The mathematical model of a lambda expression: variable names are sequences of characters.
pub enum Term {
    Var(Seq<char>),
    Abs(Seq<char>, Box<Term>),
    App(Box<Term>, Box<Term>),
}

/// A lambda expression.
pub enum Expr {
    Variable { name: String },
    Abstraction { variable: String, body: Box<Expr> },
    Application { function: Box<Expr>, argument: Box<Expr> },
}

impl View for Expr {
    type V = Term;

    open spec fn view(&self) -> Term
        decreases self,
    {
        match self {
            Expr::Variable { name } => Term::Var(name@),
            Expr::Abstraction { variable, body } => Term::Abs(variable@, Box::new((**body).view())),
            Expr::Application { function, argument } => Term::App(
                Box::new((**function).view()),
                Box::new((**argument).view()),
            ),
        }
    }
}

/// The application of `f` to `a`.
pub open spec fn app_t(f: Term, a: Term) -> Term {
    Term::App(Box::new(f), Box::new(a))
}

/// `f` applied to every argument of `args`, left to right.
pub open spec fn apps_t(f: Term, args: Seq<Term>) -> Term
    decreases args.len(),
{
    if args.len() == 0 {
        f
    } else {
        app_t(apps_t(f, args.drop_last()), args.last())
    }
}


/// `f` applied to `a` and then to `b`.
pub open spec fn app2_t(f: Term, a: Term, b: Term) -> Term {
    app_t(app_t(f, a), b)
}

pub open spec fn app3_t(f: Term, a: Term, b: Term, c: Term) -> Term {
    app_t(app2_t(f, a, b), c)
}

pub open spec fn app4_t(f: Term, a: Term, b: Term, c: Term, d: Term) -> Term {
    app_t(app3_t(f, a, b, c), d)
}

/// The abstraction of `body` over the variable `v`.
pub open spec fn abs_t(v: Seq<char>, body: Term) -> Term {
    Term::Abs(v, Box::new(body))
}

/// Nested abstractions: `vars[0]` is the outermost bound variable.
pub open spec fn abss_t(vars: Seq<Seq<char>>, body: Term) -> Term
    decreases vars.len(),
{
    if vars.len() == 0 {
        body
    } else {
        abs_t(vars[0], abss_t(vars.drop_first(), body))
    }
}

/// The variable named by the string literal or string `s`.
pub open spec fn var_t(s: Seq<char>) -> Term {
    Term::Var(s)
}

/// `branch0` is selected if the bit `c` is 0, `branch1` if it is 1.
pub open spec fn select_t(c: Term, branch0: Term, branch1: Term) -> Term {
    app2_t(c, branch0, branch1)
}

/// The placeholder used where no value is ever read.
pub open spec fn unreachable_t() -> Term {
    Term::Var("_"@)
}

pub open spec fn bit_t(b: bool) -> Term {
    if b {
        Term::Var("1"@)
    } else {
        Term::Var("0"@)
    }
}

/// `let v = value in body`.
pub open spec fn let_t(v: Seq<char>, value: Term, body: Term) -> Term {
    app_t(abs_t(v, body), value)
}

/// A function applied to itself, so that it can call itself recursively.
pub open spec fn rec_t(f: Term) -> Term {
    app_t(f, f)
}

/// A chain of `let` definitions: `defs[0]` is the outermost one.
pub open spec fn lets_t(defs: Seq<(Seq<char>, Term)>, body: Term) -> Term
    decreases defs.len(),
{
    if defs.len() == 0 {
        body
    } else {
        let_t(defs[0].0, defs[0].1, lets_t(defs.drop_first(), body))
    }
}

/// The rendering of a term in the WALC text format: `[x body]` for an abstraction and
/// `(f a)` for an application, with a space only between two adjacent names.
pub open spec fn render(t: Term) -> Seq<char>
    decreases t,
{
    match t {
        Term::Var(name) => name,
        Term::Abs(v, body) => seq!['['] + v + (if (*body) is Var {
            seq![' ']
        } else {
            Seq::empty()
        }) + render(*body) + seq![']'],
        Term::App(f, a) => seq!['('] + render(*f) + (if (*f) is Var && (*a) is Var {
            seq![' ']
        } else {
            Seq::empty()
        }) + render(*a) + seq![')'],
    }
}

impl Expr {
    /// A copy of the expression.
    pub fn duplicate(&self) -> (r: Expr)
        ensures
            r@ == self@,
        decreases self,
    {
        match self {
            Expr::Variable { name } => Expr::Variable { name: name.clone() },
            Expr::Abstraction { variable, body } => Expr::Abstraction {
                variable: variable.clone(),
                body: Box::new((**body).duplicate()),
            },
            Expr::Application { function, argument } => Expr::Application {
                function: Box::new((**function).duplicate()),
                argument: Box::new((**argument).duplicate()),
            },
        }
    }

    /// Whether the expression is a variable.
    pub fn is_variable(&self) -> (r: bool)
        ensures
            r == self@ is Var,
    {
        match self {
            Expr::Variable { .. } => true,
            _ => false,
        }
    }

    /// Writes the expression in the WALC text format at the end of `out`.
    pub fn write_text(&self, out: &mut String)
        ensures
            final(out)@ == old(out)@ + render(self@),
        decreases self,
    {
        match self {
            Expr::Variable { name } => {
                out.append(name.as_str());
            },
            Expr::Abstraction { variable, body } => {
                out.append("[");
                out.append(variable.as_str());
                if (**body).is_variable() {
                    out.append(" ");
                }
                (**body).write_text(out);
                out.append("]");
                proof {
                    reveal_strlit("[");
                    reveal_strlit("]");
                    reveal_strlit(" ");
                }
            },
            Expr::Application { function, argument } => {
                out.append("(");
                (**function).write_text(out);
                if (**function).is_variable() && (**argument).is_variable() {
                    out.append(" ");
                }
                (**argument).write_text(out);
                out.append(")");
                proof {
                    reveal_strlit("(");
                    reveal_strlit(")");
                    reveal_strlit(" ");
                }
            },
        }
    }

    /// The expression in the WALC text format.
    pub fn to_text(&self) -> (r: String)
        ensures
            r@ == render(self@),
    {
        let mut out = String::new();
        self.write_text(&mut out);
        proof {
            assert(out@ =~= render(self@));
        }
        out
    }
}

pub fn var(name: &str) -> (e: Expr)
    ensures
        e@ == Term::Var(name@),
{
    Expr::Variable { name: String::from_str(name) }
}

pub fn apply(func: Expr, args: Vec<Expr>) -> (e: Expr)
    ensures
        e@ == apps_t(func@, args@.map_values(|a: Expr| a@)),
{
    let ghost all = args@.map_values(|a: Expr| a@);
    let mut args = args;
    let mut result = func;
    let ghost mut done: int = 0;
    while args.len() > 0
        invariant
            0 <= done <= all.len(),
            args.len() == all.len() - done,
            forall|i: int| 0 <= i < args.len() ==> args@[i]@ == all[done + i],
            result@ == apps_t(func@, all.take(done)),
        decreases args.len(),
    {
        let ghost before = args@;
        let arg = args.remove(0);
        proof {
            assert(all.take(done + 1).drop_last() =~= all.take(done));
            assert(before[0] == arg);
            assert forall|i: int| 0 <= i < args.len() implies args@[i]@ == all[done + 1 + i] by {
                assert(args@[i] == before[i + 1]);
            }
            done = done + 1;
        }
        result = Expr::Application { function: Box::new(result), argument: Box::new(arg) };
    }
    proof {
        assert(all.take(done) =~= all);
    }
    result
}


pub fn var_string(name: String) -> (e: Expr)
    ensures
        e@ == Term::Var(name@),
{
    Expr::Variable { name }
}

pub fn apply1(func: Expr, a: Expr) -> (e: Expr)
    ensures
        e@ == app_t(func@, a@),
{
    Expr::Application { function: Box::new(func), argument: Box::new(a) }
}

pub fn apply2(func: Expr, a: Expr, b: Expr) -> (e: Expr)
    ensures
        e@ == app2_t(func@, a@, b@),
{
    apply1(apply1(func, a), b)
}

pub fn apply3(func: Expr, a: Expr, b: Expr, c: Expr) -> (e: Expr)
    ensures
        e@ == app3_t(func@, a@, b@, c@),
{
    apply1(apply2(func, a, b), c)
}

pub fn apply4(func: Expr, a: Expr, b: Expr, c: Expr, d: Expr) -> (e: Expr)
    ensures
        e@ == app4_t(func@, a@, b@, c@, d@),
{
    apply1(apply3(func, a, b, c), d)
}

pub fn abs1(v: &str, body: Expr) -> (e: Expr)
    ensures
        e@ == abs_t(v@, body@),
{
    Expr::Abstraction { variable: String::from_str(v), body: Box::new(body) }
}

pub fn abs2(v1: &str, v2: &str, body: Expr) -> (e: Expr)
    ensures
        e@ == abs_t(v1@, abs_t(v2@, body@)),
{
    abs1(v1, abs1(v2, body))
}

pub fn abs3(v1: &str, v2: &str, v3: &str, body: Expr) -> (e: Expr)
    ensures
        e@ == abs_t(v1@, abs_t(v2@, abs_t(v3@, body@))),
{
    abs1(v1, abs2(v2, v3, body))
}

pub fn abs4(v1: &str, v2: &str, v3: &str, v4: &str, body: Expr) -> (e: Expr)
    ensures
        e@ == abs_t(v1@, abs_t(v2@, abs_t(v3@, abs_t(v4@, body@)))),
{
    abs1(v1, abs3(v2, v3, v4, body))
}

pub fn abs_string(v: String, body: Expr) -> (e: Expr)
    ensures
        e@ == abs_t(v@, body@),
{
    Expr::Abstraction { variable: v, body: Box::new(body) }
}

pub fn abs(vars: &[&str], body: Expr) -> (e: Expr)
    ensures
        e@ == abss_t(vars@.map_values(|s: &str| s@), body@),
{
    let ghost names = vars@.map_values(|s: &str| s@);
    let mut result = body;
    let mut i = vars.len();
    proof {
        assert(names.skip(i as int) =~= Seq::<Seq<char>>::empty());
    }
    while i > 0
        invariant
            i <= vars@.len(),
            names == vars@.map_values(|s: &str| s@),
            result@ == abss_t(names.skip(i as int), body@),
        decreases i,
    {
        i = i - 1;
        proof {
            assert(names.skip(i as int).drop_first() =~= names.skip(i + 1));
        }
        result = abs1(vars[i], result);
    }
    proof {
        assert(names.skip(0) =~= names);
    }
    result
}

/// Abstractions over variables whose names were computed.
pub fn abs_strings(vars: Vec<String>, body: Expr) -> (e: Expr)
    ensures
        e@ == abss_t(vars@.map_values(|s: String| s@), body@),
{
    let ghost names = vars@.map_values(|s: String| s@);
    let mut vars = vars;
    let mut result = body;
    proof {
        assert(names.skip(vars.len() as int) =~= Seq::<Seq<char>>::empty());
    }
    while vars.len() > 0
        invariant
            vars.len() <= names.len(),
            forall|j: int| 0 <= j < vars.len() ==> vars@[j]@ == names[j],
            result@ == abss_t(names.skip(vars.len() as int), body@),
        decreases vars.len(),
    {
        let ghost before = vars@;
        let v = vars.pop().unwrap();
        proof {
            assert(names.skip(vars.len() as int).drop_first() =~= names.skip(vars.len() + 1));
            assert(v == before[vars.len() as int]);
        }
        result = abs_string(v, result);
    }
    proof {
        assert(names.skip(0) =~= names);
    }
    result
}

/// `branch0` is selected if `condition` is 0, `branch1` is selected if `condition` is 1.
pub fn select(condition: Expr, branch0: Expr, branch1: Expr) -> (e: Expr)
    ensures
        e@ == select_t(condition@, branch0@, branch1@),
{
    apply2(condition, branch0, branch1)
}

/// The placeholder for values that are never used.
pub fn unreachable() -> (e: Expr)
    ensures
        e@ == unreachable_t(),
{
    var("_")
}

pub fn bit(b: bool) -> (e: Expr)
    ensures
        e@ == bit_t(b),
{
    if b {
        var("1")
    } else {
        var("0")
    }
}

/// Constructs a simple `let {var} = {value} in {body}` expression.
pub fn let_in(v: &str, value: Expr, body: Expr) -> (e: Expr)
    ensures
        e@ == let_t(v@, value@, body@),
{
    apply1(abs1(v, body), value)
}

pub fn let_in_string(v: String, value: Expr, body: Expr) -> (e: Expr)
    ensures
        e@ == let_t(v@, value@, body@),
{
    apply1(abs_string(v, body), value)
}

/// Applies the function to itself, which allows the function to call itself recursively.
pub fn rec(func: Expr) -> (e: Expr)
    ensures
        e@ == rec_t(func@),
{
    let copy = func.duplicate();
    apply1(copy, func)
}

/// Constructs a `let .. in` expression.
///
/// `let` expressions allow variable shadowing, which enables imperative-style code.
pub struct LetExprBuilder {
    defs: Vec<(String, Expr)>,
}

impl View for LetExprBuilder {
    type V = Seq<(Seq<char>, Term)>;

    closed spec fn view(&self) -> Seq<(Seq<char>, Term)> {
        self.defs@.map_values(|d: (String, Expr)| (d.0@, d.1@))
    }
}

impl LetExprBuilder {
    pub fn new() -> (b: Self)
        ensures
            b@ == Seq::<(Seq<char>, Term)>::empty(),
    {
        let b = LetExprBuilder { defs: Vec::new() };
        proof {
            assert(b@ =~= Seq::<(Seq<char>, Term)>::empty());
        }
        b
    }

    /// Defines a variable: adds a new `let {name} = {value} in` line.
    pub fn def(&mut self, name: &str, value: Expr)
        ensures
            final(self)@ == old(self)@.push((name@, value@)),
    {
        self.def_string(String::from_str(name), value);
    }

    pub fn def_string(&mut self, name: String, value: Expr)
        ensures
            final(self)@ == old(self)@.push((name@, value@)),
    {
        self.defs.push((name, value));
        proof {
            assert(self@ =~= old(self)@.push((name@, value@)));
        }
    }

    /// Defines a recursive function, i.e. a function that takes itself as the first argument
    /// and therefore can call itself. To call the function, use [`rec`].
    pub fn def_rec(&mut self, name: &str, value: Expr)
        ensures
            final(self)@ == old(self)@.push((name@, abs_t(name@, value@))),
    {
        let value = abs1(name, value);
        self.def(name, value);
    }

    pub fn def_rec_string(&mut self, name: String, value: Expr)
        ensures
            final(self)@ == old(self)@.push((name@, abs_t(name@, value@))),
    {
        let value = abs_string(name.clone(), value);
        self.def_string(name, value);
    }

    /// Appends all definitions of `other` after the definitions of `self`.
    pub fn append(&mut self, other: LetExprBuilder)
        ensures
            final(self)@ == old(self)@ + other@,
    {
        let mut other = other;
        let ghost o = other@;
        let ghost s0 = self@;
        self.defs.append(&mut other.defs);
        proof {
            assert(self@ =~= s0 + o);
        }
    }

    /// Combines all the definitions with the given body expression to form a complete
    /// `let .. in` expression.
    pub fn build_in(self, body: Expr) -> (e: Expr)
        ensures
            e@ == lets_t(self@, body@),
    {
        let ghost all = self@;
        let mut defs = self.defs;
        let mut result = body;
        proof {
            assert(all.skip(defs.len() as int) =~= Seq::<(Seq<char>, Term)>::empty());
        }
        while defs.len() > 0
            invariant
                defs.len() <= all.len(),
                forall|j: int| 0 <= j < defs.len() ==> (defs@[j].0@, defs@[j].1@) == all[j],
                result@ == lets_t(all.skip(defs.len() as int), body@),
            decreases defs.len(),
        {
            let ghost before = defs@;
            let (name, value) = defs.pop().unwrap();
            proof {
                assert(all.skip(defs.len() as int).drop_first() =~= all.skip(defs.len() + 1));
                assert((name, value) == before[defs.len() as int]);
            }
            result = let_in_string(name, value, result);
        }
        proof {
            assert(all.skip(0) =~= all);
        }
        result
    }
}


/// The core prelude: the placeholder `_`, the bits `0` and `1`, then pairs, lists, numbers and
/// trees.
pub open spec fn core_defs_t() -> Seq<(Seq<char>, Term)> {
    seq![
        ("_"@, abs_t("_"@, Term::Var("_"@))),
        ("0"@, abs_t("x0"@, abs_t("x1"@, Term::Var("x0"@)))),
        ("1"@, abs_t("x0"@, abs_t("x1"@, Term::Var("x1"@)))),
    ] + pair::defs_t() + list::defs_t() + number::defs_t() + tree::defs_t()
}

/// Provides definitions required for all core types and functions.
pub fn generate_core_definitions(b: &mut LetExprBuilder)
    ensures
        final(b)@ == old(b)@ + core_defs_t(),
{
    let ghost start = b@;
    b.def("_", abs1("_", var("_")));
    b.def("0", abs2("x0", "x1", var("x0")));
    b.def("1", abs2("x0", "x1", var("x1")));
    pair::generate_defs(b);
    list::generate_defs(b);
    number::generate_defs(b);
    tree::generate_defs(b);
    proof {
        assert(b@ =~= start + core_defs_t());
    }
}

} // verus!
