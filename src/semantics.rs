//! The meaning of checking, stated over the mathematical models of types,
//! scopes and stacks.
use vstd::prelude::*;

use crate::ast::{Branch, Constructor, Expr, Pattern, TopLevel, TypeExpr};
use crate::type_checker::TypeCheckError;
use crate::types::Ty;

verus! {

/// Bindings of names to types, in order of introduction.
pub type Scope = Seq<(Seq<char>, Ty)>;

/// The most recently introduced binding of `name` in `scope`.
pub open spec fn lookup(scope: Scope, name: Seq<char>) -> Option<Ty>
    decreases scope.len(),
{
    if scope.len() == 0 {
        None
    } else if scope.last().0 == name {
        Some(scope.last().1)
    } else {
        lookup(scope.drop_last(), name)
    }
}

/// The type that a written type denotes.
pub open spec fn lower(te: TypeExpr) -> Ty
    decreases te,
{
    match te {
        TypeExpr::Word(name) => Ty::Basic(name@),
        TypeExpr::Quotation { inputs, outputs } => Ty::Quotation(
            lower_all(inputs@),
            lower_all(outputs@),
        ),
    }
}

pub open spec fn lower_all(tes: Seq<TypeExpr>) -> Seq<Ty>
    decreases tes,
{
    if tes.len() == 0 {
        Seq::empty()
    } else {
        lower_all(tes.drop_last()).push(lower(tes.last()))
    }
}

/// What a word denotes: locals take priority over the global table.
pub open spec fn resolve(ctx: Scope, locals: Scope, name: Seq<char>) -> Option<Ty> {
    match lookup(locals, name) {
        Some(t) => Some(t),
        None => lookup(ctx, name),
    }
}

/// The stack after applying the effect `inputs -> outputs` to `stack`, or a
/// mismatch when the top of the stack is not `inputs`.
pub open spec fn apply_effect(stack: Seq<Ty>, inputs: Seq<Ty>, outputs: Seq<Ty>) -> Result<
    Seq<Ty>,
    TypeCheckError,
> {
    if inputs.len() <= stack.len() && stack.subrange(
        stack.len() - inputs.len(),
        stack.len() as int,
    ) == inputs {
        Ok(stack.subrange(0, stack.len() - inputs.len()) + outputs)
    } else {
        Err(TypeCheckError::TypeMismatch)
    }
}

/// The stack after one expression.
pub open spec fn check_expr(ctx: Scope, locals: Scope, e: Expr, stack: Seq<Ty>) -> Result<
    Seq<Ty>,
    TypeCheckError,
>
    decreases e,
{
    match e {
        Expr::Word(name) => match resolve(ctx, locals, name@) {
            None => Err(TypeCheckError::UnboundSymbol),
            Some(Ty::Function(inputs, outputs)) => apply_effect(stack, inputs, outputs),
            Some(t) => Ok(stack.push(t)),
        },
        Expr::Quotation { inputs, quotation } => match check_body(
            ctx,
            locals,
            quotation@,
            lower_all(inputs@),
        ) {
            Ok(out) => Ok(stack.push(Ty::Quotation(lower_all(inputs@), out))),
            Err(err) => Err(err),
        },
        Expr::Unquote => {
            if stack.len() == 0 {
                Err(TypeCheckError::TypeMismatch)
            } else {
                match stack.last() {
                    Ty::Quotation(inputs, outputs) => apply_effect(stack.drop_last(), inputs, outputs),
                    _ => Err(TypeCheckError::TypeMismatch),
                }
            }
        },
    }
}

/// The stack after a sequence of expressions, run left to right.
pub open spec fn check_body(ctx: Scope, locals: Scope, es: Seq<Expr>, stack: Seq<Ty>) -> Result<
    Seq<Ty>,
    TypeCheckError,
>
    decreases es,
{
    if es.len() == 0 {
        Ok(stack)
    } else {
        match check_body(ctx, locals, es.drop_last(), stack) {
            Ok(mid) => check_expr(ctx, locals, es.last(), mid),
            Err(err) => Err(err),
        }
    }
}

/// Whether `p` fits a value of type `t`.
pub open spec fn fits(ctx: Scope, t: Ty, p: Pattern) -> bool
    decreases p,
{
    match p {
        Pattern::All(_) => true,
        Pattern::Constructor { name, arguments } => match lookup(ctx, name@) {
            Some(Ty::Function(inputs, outputs)) => {
                &&& outputs.len() == 1
                &&& outputs[0] == t
                &&& inputs.len() == arguments.len()
                &&& fits_all(ctx, inputs, arguments@)
            },
            _ => false,
        },
    }
}

/// Whether each pattern of `ps` fits the type at its place in `ts`.
pub open spec fn fits_all(ctx: Scope, ts: Seq<Ty>, ps: Seq<Pattern>) -> bool
    decreases ps,
{
    if ps.len() == 0 {
        true
    } else {
        fits_all(ctx, ts.drop_last(), ps.drop_last()) && fits(ctx, ts.last(), ps.last())
    }
}

/// The scope after binding the names of `p`, matched against `t`.
pub open spec fn bind(ctx: Scope, locals: Scope, t: Ty, p: Pattern) -> Scope
    decreases p,
{
    match p {
        Pattern::All(name) => locals.push((name@, t)),
        Pattern::Constructor { name, arguments } => match lookup(ctx, name@) {
            Some(Ty::Function(inputs, _)) => bind_all(ctx, locals, inputs, arguments@),
            _ => locals,
        },
    }
}

pub open spec fn bind_all(ctx: Scope, locals: Scope, ts: Seq<Ty>, ps: Seq<Pattern>) -> Scope
    decreases ps,
{
    if ps.len() == 0 {
        locals
    } else {
        bind(ctx, bind_all(ctx, locals, ts.drop_last(), ps.drop_last()), ts.last(), ps.last())
    }
}

/// The verdict on one branch of a definition with signature `inputs -> outputs`.
pub open spec fn check_branch(
    ctx: Scope,
    locals: Scope,
    inputs: Seq<Ty>,
    outputs: Seq<Ty>,
    b: Branch,
) -> Result<(), TypeCheckError> {
    let n = b.patterns.len() as int;
    if n > inputs.len() {
        Err(TypeCheckError::TypeMismatch)
    } else if !fits_all(ctx, inputs.take(n), b.patterns@) {
        Err(TypeCheckError::TypeMismatch)
    } else {
        match check_body(
            ctx,
            bind_all(ctx, locals, inputs.take(n), b.patterns@),
            b.body@,
            inputs.skip(n),
        ) {
            Ok(stack) => if stack == outputs {
                Ok(())
            } else {
                Err(TypeCheckError::TypeMismatch)
            },
            Err(err) => Err(err),
        }
    }
}

/// The verdict on the branches of a definition, checked in order.
pub open spec fn check_branches(
    ctx: Scope,
    locals: Scope,
    inputs: Seq<Ty>,
    outputs: Seq<Ty>,
    bs: Seq<Branch>,
) -> Result<(), TypeCheckError>
    decreases bs.len(),
{
    if bs.len() == 0 {
        Ok(())
    } else {
        match check_branches(ctx, locals, inputs, outputs, bs.drop_last()) {
            Ok(()) => check_branch(ctx, locals, inputs, outputs, bs.last()),
            Err(err) => Err(err),
        }
    }
}

/// The verdict on the bodies of all definitions of a program.
pub open spec fn check_defs(ctx: Scope, locals: Scope, prog: Seq<TopLevel>) -> Result<
    (),
    TypeCheckError,
>
    decreases prog.len(),
{
    if prog.len() == 0 {
        Ok(())
    } else {
        match check_defs(ctx, locals, prog.drop_last()) {
            Ok(()) => match prog.last() {
                TopLevel::Def { inputs, outputs, branches, .. } => check_branches(
                    ctx,
                    locals,
                    lower_all(inputs@),
                    lower_all(outputs@),
                    branches@,
                ),
                _ => Ok(()),
            },
            Err(err) => Err(err),
        }
    }
}

/// The declared type names after registering those of `prog`.
pub open spec fn collect_types(types: Seq<Seq<char>>, prog: Seq<TopLevel>) -> Result<
    Seq<Seq<char>>,
    TypeCheckError,
>
    decreases prog.len(),
{
    if prog.len() == 0 {
        Ok(types)
    } else {
        match collect_types(types, prog.drop_last()) {
            Ok(names) => match prog.last() {
                TopLevel::Data { name, .. } => if names.contains(name@) {
                    Err(TypeCheckError::TypeAlreadyDefined)
                } else {
                    Ok(names.push(name@))
                },
                _ => Ok(names),
            },
            Err(err) => Err(err),
        }
    }
}

/// The global table after registering `name` with type `t`.
pub open spec fn declare(ctx: Scope, name: Seq<char>, t: Ty) -> Result<Scope, TypeCheckError> {
    if lookup(ctx, name) is Some {
        Err(TypeCheckError::SymbolAlreadyDefined)
    } else {
        Ok(ctx.push((name, t)))
    }
}

/// The signature of a constructor of the data type `data_name`.
pub open spec fn constructor_type(data_name: Seq<char>, c: Constructor) -> Ty {
    Ty::Function(lower_all(c.argument_types@), seq![Ty::Basic(data_name)])
}

pub open spec fn collect_constructor_list(
    ctx: Scope,
    data_name: Seq<char>,
    cs: Seq<Constructor>,
) -> Result<Scope, TypeCheckError>
    decreases cs.len(),
{
    if cs.len() == 0 {
        Ok(ctx)
    } else {
        match collect_constructor_list(ctx, data_name, cs.drop_last()) {
            Ok(c) => declare(c, cs.last().name@, constructor_type(data_name, cs.last())),
            Err(err) => Err(err),
        }
    }
}

/// The global table after registering the constructors of `prog`.
pub open spec fn collect_constructors(ctx: Scope, prog: Seq<TopLevel>) -> Result<
    Scope,
    TypeCheckError,
>
    decreases prog.len(),
{
    if prog.len() == 0 {
        Ok(ctx)
    } else {
        match collect_constructors(ctx, prog.drop_last()) {
            Ok(c) => match prog.last() {
                TopLevel::Data { name, constructors } => collect_constructor_list(
                    c,
                    name@,
                    constructors@,
                ),
                _ => Ok(c),
            },
            Err(err) => Err(err),
        }
    }
}

/// The global table after registering the function signatures of `prog`.
pub open spec fn collect_defs(ctx: Scope, prog: Seq<TopLevel>) -> Result<Scope, TypeCheckError>
    decreases prog.len(),
{
    if prog.len() == 0 {
        Ok(ctx)
    } else {
        match collect_defs(ctx, prog.drop_last()) {
            Ok(c) => match prog.last() {
                TopLevel::Def { name, inputs, outputs, .. } => declare(
                    c,
                    name@,
                    Ty::Function(lower_all(inputs@), lower_all(outputs@)),
                ),
                _ => Ok(c),
            },
            Err(err) => Err(err),
        }
    }
}

/// The state of a checker: declared type names, the global table and the
/// local scope.
pub struct CheckerModel {
    pub types: Seq<Seq<char>>,
    pub ctx: Scope,
    pub locals: Scope,
}

impl CheckerModel {
    pub open spec fn empty() -> CheckerModel {
        CheckerModel { types: Seq::empty(), ctx: Seq::empty(), locals: Seq::empty() }
    }
}

/// Checking `prog` from state `s`: the four phases in order, stopping at the
/// first failure; on success, the state with every declaration registered.
pub open spec fn run_check(s: CheckerModel, prog: Seq<TopLevel>) -> Result<
    CheckerModel,
    TypeCheckError,
> {
    match collect_types(s.types, prog) {
        Err(err) => Err(err),
        Ok(types) => match collect_constructors(s.ctx, prog) {
            Err(err) => Err(err),
            Ok(c1) => match collect_defs(c1, prog) {
                Err(err) => Err(err),
                Ok(c2) => match check_defs(c2, s.locals, prog) {
                    Err(err) => Err(err),
                    Ok(()) => Ok(CheckerModel { types, ctx: c2, locals: s.locals }),
                },
            },
        },
    }
}

/// The verdict on `prog` for a fresh checker.
pub open spec fn verdict(prog: Seq<TopLevel>) -> Result<(), TypeCheckError> {
    match run_check(CheckerModel::empty(), prog) {
        Ok(_) => Ok(()),
        Err(err) => Err(err),
    }
}

} // verus!
