use vstd::prelude::*;

use crate::environment::Environment;
use crate::expr::{Expr, ExprModel, Variable};
use crate::grammar::{Command, CommandModel, Statement, StatementModel};

verus! {

/// `m` with every variable that `env` binds replaced by a node that carries the
/// bound expression; the others stay unbound.
pub open spec fn resolve(m: ExprModel, env: Map<Seq<char>, ExprModel>) -> ExprModel
    decreases m,
{
    match m {
        ExprModel::UnboundVariable(n) => if env.contains_key(n) {
            ExprModel::BoundVariable(n, Box::new(env[n]))
        } else {
            m
        },
        ExprModel::BinaryOperation(l, op, r) => ExprModel::BinaryOperation(
            Box::new(resolve(*l, env)),
            op,
            Box::new(resolve(*r, env)),
        ),
        ExprModel::UnaryOperation(op, e) => ExprModel::UnaryOperation(
            op,
            Box::new(resolve(*e, env)),
        ),
        _ => m,
    }
}

/// The names of the unbound-variable leaves of `m`, through binary and unary
/// operations; literals, bound variables and assignments are not entered.
pub open spec fn unbound_names(m: ExprModel) -> Set<Seq<char>>
    decreases m,
{
    match m {
        ExprModel::UnboundVariable(n) => set![n],
        ExprModel::BinaryOperation(l, _, r) => unbound_names(*l).union(unbound_names(*r)),
        ExprModel::UnaryOperation(_, e) => unbound_names(*e),
        _ => Set::empty(),
    }
}

/// The names that `v` holds.
pub open spec fn name_set(v: Seq<String>) -> Set<Seq<char>> {
    Set::new(|n: Seq<char>| exists|i: int| 0 <= i < v.len() && v[i]@ == n)
}

/// No name stands twice in `v`.
pub open spec fn distinct_names(v: Seq<String>) -> bool {
    forall|i: int, j: int| 0 <= i < j < v.len() ==> v[i]@ != v[j]@
}

/// Resolves the variables of `expr` against `env`.
pub fn eval(expr: Expr, env: &Environment) -> (r: Expr)
    ensures
        r@ == resolve(expr@, env@),
    decreases expr,
{
    match expr {
        Expr::UnboundVariable { name } => match env.get(&name) {
            Some(bound) => Expr::BoundVariable {
                variable: Variable { name, expr: Box::new(bound.duplicate()) },
            },
            None => Expr::UnboundVariable { name },
        },
        Expr::BinaryOperation { lhs, op, rhs } => Expr::BinaryOperation {
            lhs: Box::new(eval(*lhs, env)),
            op,
            rhs: Box::new(eval(*rhs, env)),
        },
        Expr::UnaryOperation { op, expr } => Expr::UnaryOperation {
            op,
            expr: Box::new(eval(*expr, env)),
        },
        other => other,
    }
}

fn add_name(names: &mut Vec<String>, name: &String)
    requires
        distinct_names(old(names)@),
    ensures
        distinct_names(final(names)@),
        name_set(final(names)@) == name_set(old(names)@).insert(name@),
{
    let mut i: usize = 0;
    while i < names.len()
        invariant
            0 <= i <= names@.len(),
            names@ == old(names)@,
            distinct_names(names@),
            forall|j: int| 0 <= j < i ==> names@[j]@ != name@,
        decreases names@.len() - i,
    {
        if names[i] == *name {
            proof {
                assert(name_set(names@) =~= name_set(names@).insert(name@));
            }
            return;
        }
        i = i + 1;
    }
    let ghost before = names@;
    names.push(name.clone());
    proof {
        assert(names@[before.len() as int] == name);
        assert forall|n: Seq<char>| #[trigger]
            name_set(names@).contains(n) == name_set(before).insert(name@).contains(n) by {
            if name_set(before).contains(n) {
                let k = choose|k: int| 0 <= k < before.len() && before[k]@ == n;
                assert(names@[k] == before[k]);
            }
            if name_set(names@).contains(n) {
                let k = choose|k: int| 0 <= k < names@.len() && names@[k]@ == n;
                if k < before.len() {
                    assert(names@[k] == before[k]);
                }
            }
        }
        assert(name_set(names@) =~= name_set(before).insert(name@));
    }
}

fn collect_unbound(expr: &Expr, names: &mut Vec<String>)
    requires
        distinct_names(old(names)@),
    ensures
        distinct_names(final(names)@),
        name_set(final(names)@) == name_set(old(names)@).union(unbound_names(expr@)),
    decreases expr,
{
    match expr {
        Expr::UnboundVariable { name } => {
            add_name(names, name);
            proof {
                assert(name_set(old(names)@).insert(name@) =~= name_set(old(names)@).union(
                    set![name@],
                ));
            }
        },
        Expr::BinaryOperation { lhs, rhs, .. } => {
            collect_unbound(lhs, names);
            collect_unbound(rhs, names);
            proof {
                assert(name_set(final(names)@) =~= name_set(old(names)@).union(
                    unbound_names(expr@),
                ));
            }
        },
        Expr::UnaryOperation { expr: inner, .. } => {
            collect_unbound(inner, names);
        },
        _ => {
            proof {
                assert(name_set(old(names)@).union(Set::empty()) =~= name_set(old(names)@));
            }
        },
    }
}

/// The names of the unbound variables of `expr`, each once.
pub fn unbound_variables(expr: &Expr) -> (r: Vec<String>)
    ensures
        distinct_names(r@),
        name_set(r@) == unbound_names(expr@),
{
    let mut names: Vec<String> = Vec::new();
    proof {
        assert(name_set(names@) =~= Set::<Seq<char>>::empty());
    }
    collect_unbound(expr, &mut names);
    proof {
        assert(Set::<Seq<char>>::empty().union(unbound_names(expr@)) =~= unbound_names(expr@));
    }
    names
}

/// What a statement did, for the session to report.
#[derive(Debug)]
pub enum Outcome {
    /// An expression or the right-hand side of an assignment was evaluated:
    /// its tree, and the names of its unbound variables.
    Evaluated { expr: Expr, unbound: Vec<String> },
    /// `:state`: the bound variables are to be listed.
    ListState,
    /// `:reset`: the environment was cleared.
    Reset,
    /// `:debug`: the last tree is to be shown.
    Debug,
    /// A command of another name.
    UnknownCommand { name: String },
}

/// `r` reports the evaluated tree `v` and exactly its unbound names.
pub open spec fn reports(r: Outcome, v: ExprModel) -> bool {
    match r {
        Outcome::Evaluated { expr, unbound } => expr@ == v && distinct_names(unbound@) && name_set(
            unbound@,
        ) == unbound_names(v),
        _ => false,
    }
}

proof fn lemma_empty_names(v: Seq<String>)
    ensures
        (v.len() == 0) == (name_set(v) == Set::<Seq<char>>::empty()),
{
    if v.len() > 0 {
        assert(name_set(v).contains(v[0]@));
    } else {
        assert(name_set(v) =~= Set::<Seq<char>>::empty());
    }
}

/// Carries out one parsed statement against `env`.
///
/// An expression is evaluated. An assignment is evaluated too, and its name is
/// bound to the result only where the result has no unbound variable; else the
/// environment stays as it was. `:reset` clears the environment; the other
/// commands leave it as it is.
pub fn run_statement(stmt: Statement, env: &mut Environment) -> (r: Outcome)
    ensures
        match stmt@ {
            StatementModel::Assignment(id, e) => {
                let v = resolve(e, old(env)@);
                &&& reports(r, v)
                &&& final(env)@ == if unbound_names(v) == Set::<Seq<char>>::empty() {
                    old(env)@.insert(id, v)
                } else {
                    old(env)@
                }
            },
            StatementModel::Expression(e) => reports(r, resolve(e, old(env)@)) && final(env)@ == old(
                env,
            )@,
            StatementModel::Command(CommandModel::State) => r is ListState && final(env)@ == old(
                env,
            )@,
            StatementModel::Command(CommandModel::Reset) => r is Reset && final(env)@ == Map::<
                Seq<char>,
                ExprModel,
            >::empty(),
            StatementModel::Command(CommandModel::Debug) => r is Debug && final(env)@ == old(env)@,
            StatementModel::Command(CommandModel::Unknown(n)) => match r {
                Outcome::UnknownCommand { name } => name@ == n && final(env)@ == old(env)@,
                _ => false,
            },
        },
{
    match stmt {
        Statement::Assignment { identifier, expr } => {
            let value = eval(expr, env);
            let unbound = unbound_variables(&value);
            proof {
                lemma_empty_names(unbound@);
            }
            if unbound.len() == 0 {
                env.insert(identifier, value.duplicate());
            }
            Outcome::Evaluated { expr: value, unbound }
        },
        Statement::Expression { expr } => {
            let value = eval(expr, env);
            let unbound = unbound_variables(&value);
            Outcome::Evaluated { expr: value, unbound }
        },
        Statement::Command { command } => match command {
            Command::State => Outcome::ListState,
            Command::Reset => {
                env.clear();
                Outcome::Reset
            },
            Command::Debug => Outcome::Debug,
            Command::Unknown { name } => Outcome::UnknownCommand { name },
        },
    }
}

} // verus!
