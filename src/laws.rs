//! Properties that hold of every program and every checking state.
use vstd::prelude::*;

use crate::ast::{Branch, Constructor, Expr, Pattern, TopLevel, TypeExpr};
use crate::semantics::{
    apply_effect, check_body, check_branch, check_branches, check_expr,
    collect_constructor_list, collect_constructors, collect_defs, collect_types,
    constructor_type, declare, fits, lookup, lower_all, resolve, run_check, CheckerModel, Scope,
};
use crate::type_checker::TypeCheckError;
use crate::types::Ty;

verus! {

/// A call of a word whose signature is `inputs -> outputs` consumes exactly
/// `inputs` from the top of the stack and puts exactly `outputs` in their
/// place; the rest of the stack is untouched, so the depth changes by
/// `outputs.len() - inputs.len()`.
pub proof fn law_call_stack_effect(
    ctx: Scope,
    locals: Scope,
    name: String,
    stack: Seq<Ty>,
    inputs: Seq<Ty>,
    outputs: Seq<Ty>,
)
    requires
        resolve(ctx, locals, name@) == Some(Ty::Function(inputs, outputs)),
        check_expr(ctx, locals, Expr::Word(name), stack) is Ok,
    ensures
        ({
            let after = check_expr(ctx, locals, Expr::Word(name), stack)->Ok_0;
            let rest = stack.len() - inputs.len();
            &&& inputs.len() <= stack.len()
            &&& stack.skip(rest) == inputs
            &&& after.len() == stack.len() - inputs.len() + outputs.len()
            &&& after.take(rest) == stack.take(rest)
            &&& after.skip(rest) == outputs
        }),
{
    let after = check_expr(ctx, locals, Expr::Word(name), stack)->Ok_0;
    let rest = stack.len() - inputs.len();
    assert(after == apply_effect(stack, inputs, outputs)->Ok_0);
    assert(stack.skip(rest) =~= stack.subrange(rest, stack.len() as int));
    assert(after.take(rest) =~= stack.take(rest));
    assert(after.skip(rest) =~= outputs);
}

/// A constructor pattern whose number of sub-patterns differs from the
/// constructor's declared input count fits no type, whatever the
/// sub-patterns are.
pub proof fn law_pattern_arity(ctx: Scope, t: Ty, name: String, arguments: Vec<Pattern>)
    requires
        lookup(ctx, name@) is Some,
        lookup(ctx, name@)->0 is Function,
        lookup(ctx, name@)->0->Function_0.len() != arguments.len(),
    ensures
        !fits(ctx, t, Pattern::Constructor { name, arguments }),
{
}

/// Every branch is checked under the same enclosing scope, so the bindings
/// that one branch's patterns introduce are invisible to every other: the
/// branches pass together exactly when each passes on its own.
pub proof fn law_branch_scopes(
    ctx: Scope,
    locals: Scope,
    inputs: Seq<Ty>,
    outputs: Seq<Ty>,
    branches: Seq<Branch>,
)
    ensures
        check_branches(ctx, locals, inputs, outputs, branches) is Ok <==> forall|i: int|
            0 <= i < branches.len() ==> (#[trigger] check_branch(
                ctx,
                locals,
                inputs,
                outputs,
                branches[i],
            )) is Ok,
    decreases branches.len(),
{
    if branches.len() > 0 {
        let init = branches.drop_last();
        law_branch_scopes(ctx, locals, inputs, outputs, init);
        assert forall|i: int| 0 <= i < init.len() implies #[trigger] init[i] == branches[i] by {}
        if check_branches(ctx, locals, inputs, outputs, branches) is Ok {
            assert forall|i: int| 0 <= i < branches.len() implies (#[trigger] check_branch(
                ctx,
                locals,
                inputs,
                outputs,
                branches[i],
            )) is Ok by {
                if i < init.len() {
                    assert(check_branch(ctx, locals, inputs, outputs, init[i]) is Ok);
                }
            }
        } else if forall|i: int|
            0 <= i < branches.len() ==> (#[trigger] check_branch(
                ctx,
                locals,
                inputs,
                outputs,
                branches[i],
            )) is Ok {
            assert forall|i: int| 0 <= i < init.len() implies (#[trigger] check_branch(
                ctx,
                locals,
                inputs,
                outputs,
                init[i],
            )) is Ok by {
                assert(check_branch(ctx, locals, inputs, outputs, branches[i]) is Ok);
            }
            assert(check_branch(ctx, locals, inputs, outputs, branches[branches.len() - 1]) is Ok);
        }
    }
}

/// A quotation literal's body runs on a stack of its own, seeded with its
/// declared inputs: whether it passes, and the quotation type it pushes,
/// do not depend on the enclosing stack, which it leaves as it was below
/// the pushed value. Its output type is whatever that own stack holds after
/// the body.
pub proof fn law_quotation_isolation(
    ctx: Scope,
    locals: Scope,
    inputs: Vec<TypeExpr>,
    quotation: Vec<Expr>,
    stack: Seq<Ty>,
    other: Seq<Ty>,
)
    ensures
        ({
            let e = Expr::Quotation { inputs, quotation };
            let own = check_body(ctx, locals, quotation@, lower_all(inputs@));
            &&& (check_expr(ctx, locals, e, stack) is Ok <==> own is Ok)
            &&& (check_expr(ctx, locals, e, stack) is Ok <==> check_expr(ctx, locals, e, other) is Ok)
            &&& own is Ok ==> check_expr(ctx, locals, e, stack) == Ok::<Seq<Ty>, TypeCheckError>(
                stack.push(Ty::Quotation(lower_all(inputs@), own->Ok_0)),
            )
        }),
{
}

/// The names of the data declarations of a program, in order.
pub open spec fn data_names(prog: Seq<TopLevel>) -> Seq<Seq<char>>
    decreases prog.len(),
{
    if prog.len() == 0 {
        Seq::empty()
    } else {
        match prog.last() {
            TopLevel::Data { name, .. } => data_names(prog.drop_last()).push(name@),
            _ => data_names(prog.drop_last()),
        }
    }
}

/// The names of a list of constructors, in order.
pub open spec fn constructor_names(cs: Seq<Constructor>) -> Seq<Seq<char>>
    decreases cs.len(),
{
    if cs.len() == 0 {
        Seq::empty()
    } else {
        constructor_names(cs.drop_last()).push(cs.last().name@)
    }
}

/// The names of all constructors of a program, in order.
pub open spec fn all_constructor_names(prog: Seq<TopLevel>) -> Seq<Seq<char>>
    decreases prog.len(),
{
    if prog.len() == 0 {
        Seq::empty()
    } else {
        match prog.last() {
            TopLevel::Data { constructors, .. } => all_constructor_names(prog.drop_last())
                + constructor_names(constructors@),
            _ => all_constructor_names(prog.drop_last()),
        }
    }
}

/// The names of the function definitions of a program, in order.
pub open spec fn def_names(prog: Seq<TopLevel>) -> Seq<Seq<char>>
    decreases prog.len(),
{
    if prog.len() == 0 {
        Seq::empty()
    } else {
        match prog.last() {
            TopLevel::Def { name, .. } => def_names(prog.drop_last()).push(name@),
            _ => def_names(prog.drop_last()),
        }
    }
}

/// The names that a program enters in the global table: its constructors,
/// then its functions.
pub open spec fn symbol_names(prog: Seq<TopLevel>) -> Seq<Seq<char>> {
    all_constructor_names(prog) + def_names(prog)
}

/// Whether some name occurs twice.
pub open spec fn has_duplicate(names: Seq<Seq<char>>) -> bool {
    exists|i: int, j: int| 0 <= i < j < names.len() && names[i] == names[j]
}

/// Whether the names of `added` are pairwise distinct and none is in `base`.
pub open spec fn all_new(base: Seq<Seq<char>>, added: Seq<Seq<char>>) -> bool {
    &&& !has_duplicate(added)
    &&& forall|i: int| 0 <= i < added.len() ==> !base.contains(#[trigger] added[i])
}

/// The names bound in a scope, in order.
pub open spec fn keys(scope: Scope) -> Seq<Seq<char>> {
    scope.map_values(|p: (Seq<char>, Ty)| p.0)
}

/// A program that declares two data types with the same name is rejected
/// with `TypeAlreadyDefined`, from any checker state.
pub proof fn law_duplicate_type_names(s: CheckerModel, prog: Seq<TopLevel>)
    requires
        has_duplicate(data_names(prog)),
    ensures
        run_check(s, prog) == Err::<CheckerModel, TypeCheckError>(
            TypeCheckError::TypeAlreadyDefined,
        ),
{
    lemma_collect_types(s.types, prog);
}

/// A program that declares two constructors, two functions, or a
/// constructor and a function with the same name is rejected with
/// `SymbolAlreadyDefined`, or with `TypeAlreadyDefined` where a data type
/// name is taken too; never with another error. A fresh checker rejects it
/// with `SymbolAlreadyDefined` when its data type names are distinct.
pub proof fn law_duplicate_symbol_names(s: CheckerModel, prog: Seq<TopLevel>)
    requires
        has_duplicate(symbol_names(prog)),
    ensures
        run_check(s, prog) == Err::<CheckerModel, TypeCheckError>(
            TypeCheckError::TypeAlreadyDefined,
        ) || run_check(s, prog) == Err::<CheckerModel, TypeCheckError>(
            TypeCheckError::SymbolAlreadyDefined,
        ),
        s.types.len() == 0 && !has_duplicate(data_names(prog)) ==> run_check(s, prog) == Err::<
            CheckerModel,
            TypeCheckError,
        >(TypeCheckError::SymbolAlreadyDefined),
{
    lemma_collect_types(s.types, prog);
    if s.types.len() == 0 && !has_duplicate(data_names(prog)) {
        assert(s.types =~= Seq::<Seq<char>>::empty());
        lemma_collect_types_succeeds(prog);
    }
    lemma_collect_constructors(s.ctx, prog);
    if let Ok(c1) = collect_constructors(s.ctx, prog) {
        lemma_collect_defs(c1, prog);
        if let Ok(c2) = collect_defs(c1, prog) {
            lemma_all_new_append(keys(s.ctx), all_constructor_names(prog), def_names(prog));
        }
    }
}

proof fn lemma_collect_types(types: Seq<Seq<char>>, prog: Seq<TopLevel>)
    ensures
        match collect_types(types, prog) {
            Ok(r) => r == types + data_names(prog) && !has_duplicate(data_names(prog)),
            Err(err) => err == TypeCheckError::TypeAlreadyDefined,
        },
    decreases prog.len(),
{
    if prog.len() == 0 {
        assert(types + Seq::<Seq<char>>::empty() =~= types);
    } else {
        let init = prog.drop_last();
        lemma_collect_types(types, init);
        if let Ok(r) = collect_types(types, init) {
            if let TopLevel::Data { name, .. } = prog.last() {
                if !r.contains(name@) {
                    let before = data_names(init);
                    let names = before.push(name@);
                    assert(types + names =~= r.push(name@));
                    assert forall|i: int, j: int| 0 <= i < j < names.len() implies names[i]
                        != names[j] by {
                        if j == names.len() - 1 {
                            assert(r[types.len() + i] == before[i]);
                        }
                    }
                }
            }
        }
    }
}

proof fn lemma_collect_types_succeeds(prog: Seq<TopLevel>)
    requires
        !has_duplicate(data_names(prog)),
    ensures
        collect_types(Seq::empty(), prog) is Ok,
    decreases prog.len(),
{
    if prog.len() > 0 {
        let init = prog.drop_last();
        let names = data_names(prog);
        assert forall|i: int, j: int|
            0 <= i < j < data_names(init).len() implies data_names(init)[i] != data_names(
            init,
        )[j] by {
            assert(names[i] == data_names(init)[i]);
            assert(names[j] == data_names(init)[j]);
        }
        lemma_collect_types_succeeds(init);
        lemma_collect_types(Seq::empty(), init);
        if let TopLevel::Data { name, .. } = prog.last() {
            let r = collect_types(Seq::empty(), init)->Ok_0;
            assert(r =~= data_names(init));
            if r.contains(name@) {
                let i = choose|i: int| 0 <= i < r.len() && r[i] == name@;
                assert(names[i] == names[names.len() - 1]);
            }
        }
    }
}

proof fn lemma_keys_lookup(scope: Scope, name: Seq<char>)
    ensures
        lookup(scope, name) is None <==> !keys(scope).contains(name),
    decreases scope.len(),
{
    if scope.len() == 0 {
        assert(keys(scope).len() == 0);
    } else {
        let init = scope.drop_last();
        lemma_keys_lookup(init, name);
        assert(keys(scope) =~= keys(init).push(scope.last().0));
        assert(keys(scope)[scope.len() - 1] == scope.last().0);
        if keys(init).contains(name) {
            let i = choose|i: int| 0 <= i < keys(init).len() && keys(init)[i] == name;
            assert(keys(scope)[i] == name);
        }
        if keys(scope).contains(name) && scope.last().0 != name {
            let i = choose|i: int| 0 <= i < keys(scope).len() && keys(scope)[i] == name;
            assert(keys(init)[i] == name);
        }
    }
}

proof fn lemma_declare(ctx: Scope, name: Seq<char>, t: Ty)
    ensures
        match declare(ctx, name, t) {
            Ok(c) => keys(c) == keys(ctx) + seq![name] && all_new(keys(ctx), seq![name]),
            Err(err) => err == TypeCheckError::SymbolAlreadyDefined,
        },
{
    lemma_keys_lookup(ctx, name);
    assert(keys(ctx.push((name, t))) =~= keys(ctx) + seq![name]);
}

/// Names new in turn are new together.
proof fn lemma_all_new_append(base: Seq<Seq<char>>, x: Seq<Seq<char>>, y: Seq<Seq<char>>)
    requires
        all_new(base, x),
        all_new(base + x, y),
    ensures
        all_new(base, x + y),
{
    let xy = x + y;
    assert forall|i: int, j: int| 0 <= i < j < xy.len() implies xy[i] != xy[j] by {
        if j >= x.len() {
            if i < x.len() {
                assert((base + x)[base.len() + i] == x[i]);
                assert((base + x).contains(x[i]));
                assert(y[j - x.len()] == xy[j]);
            } else {
                assert(y[i - x.len()] == xy[i]);
                assert(y[j - x.len()] == xy[j]);
            }
        }
    }
    assert forall|i: int| 0 <= i < xy.len() implies !base.contains(#[trigger] xy[i]) by {
        if i >= x.len() {
            assert(xy[i] == y[i - x.len()]);
            if base.contains(xy[i]) {
                let k = choose|k: int| 0 <= k < base.len() && base[k] == xy[i];
                assert((base + x)[k] == xy[i]);
            }
        }
    }
    assert(!has_duplicate(xy));
}

proof fn lemma_collect_constructor_list(ctx: Scope, data_name: Seq<char>, cs: Seq<Constructor>)
    ensures
        match collect_constructor_list(ctx, data_name, cs) {
            Ok(c) => keys(c) == keys(ctx) + constructor_names(cs) && all_new(
                keys(ctx),
                constructor_names(cs),
            ),
            Err(err) => err == TypeCheckError::SymbolAlreadyDefined,
        },
    decreases cs.len(),
{
    if cs.len() == 0 {
        assert(keys(ctx) + Seq::<Seq<char>>::empty() =~= keys(ctx));
    } else {
        let init = cs.drop_last();
        lemma_collect_constructor_list(ctx, data_name, init);
        if let Ok(c) = collect_constructor_list(ctx, data_name, init) {
            let last = cs.last();
            lemma_declare(c, last.name@, constructor_type(data_name, last));
            if declare(c, last.name@, constructor_type(data_name, last)) is Ok {
                lemma_all_new_append(keys(ctx), constructor_names(init), seq![last.name@]);
                assert(constructor_names(init) + seq![last.name@] =~= constructor_names(cs));
                assert(keys(ctx) + constructor_names(init) + seq![last.name@] =~= keys(ctx)
                    + constructor_names(cs));
            }
        }
    }
}

proof fn lemma_collect_constructors(ctx: Scope, prog: Seq<TopLevel>)
    ensures
        match collect_constructors(ctx, prog) {
            Ok(c) => keys(c) == keys(ctx) + all_constructor_names(prog) && all_new(
                keys(ctx),
                all_constructor_names(prog),
            ),
            Err(err) => err == TypeCheckError::SymbolAlreadyDefined,
        },
    decreases prog.len(),
{
    if prog.len() == 0 {
        assert(keys(ctx) + Seq::<Seq<char>>::empty() =~= keys(ctx));
    } else {
        let init = prog.drop_last();
        lemma_collect_constructors(ctx, init);
        if let Ok(c) = collect_constructors(ctx, init) {
            if let TopLevel::Data { name, constructors } = prog.last() {
                lemma_collect_constructor_list(c, name@, constructors@);
                if collect_constructor_list(c, name@, constructors@) is Ok {
                    lemma_all_new_append(
                        keys(ctx),
                        all_constructor_names(init),
                        constructor_names(constructors@),
                    );
                    assert(keys(ctx) + all_constructor_names(init) + constructor_names(
                        constructors@,
                    ) =~= keys(ctx) + all_constructor_names(prog));
                }
            }
        }
    }
}

proof fn lemma_collect_defs(ctx: Scope, prog: Seq<TopLevel>)
    ensures
        match collect_defs(ctx, prog) {
            Ok(c) => keys(c) == keys(ctx) + def_names(prog) && all_new(keys(ctx), def_names(prog)),
            Err(err) => err == TypeCheckError::SymbolAlreadyDefined,
        },
    decreases prog.len(),
{
    if prog.len() == 0 {
        assert(keys(ctx) + Seq::<Seq<char>>::empty() =~= keys(ctx));
    } else {
        let init = prog.drop_last();
        lemma_collect_defs(ctx, init);
        if let Ok(c) = collect_defs(ctx, init) {
            if let TopLevel::Def { name, inputs, outputs, .. } = prog.last() {
                let t = Ty::Function(lower_all(inputs@), lower_all(outputs@));
                lemma_declare(c, name@, t);
                if declare(c, name@, t) is Ok {
                    lemma_all_new_append(keys(ctx), def_names(init), seq![name@]);
                    assert(def_names(init) + seq![name@] =~= def_names(prog));
                    assert(keys(ctx) + def_names(init) + seq![name@] =~= keys(ctx) + def_names(
                        prog,
                    ));
                }
            }
        }
    }
}

} // verus!
