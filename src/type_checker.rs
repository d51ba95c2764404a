use vstd::prelude::*;

use crate::ast::{Branch, Constructor, Expr, Pattern, TopLevel, TypeExpr};
use crate::semantics::{
    apply_effect, bind, bind_all, check_body, check_branch, check_branches, check_defs,
    check_expr, collect_constructor_list, collect_constructors, collect_defs, collect_types,
    declare, fits, fits_all, lookup, lower, lower_all, resolve, run_check,
    CheckerModel, Scope,
};
use crate::types::{
    copy_types, lemma_tys_of_add, lemma_tys_of_index, lemma_tys_of_len, lemma_tys_of_subrange,
    same_type, same_types_from, ty_of, Ty, Type, tys_of,
};

verus! {

broadcast use vstd::std_specs::vec::group_vec_axioms;

/// Why a program was rejected.
#[derive(Debug, Clone, Copy, PartialEq, Eq, Structural)]
pub enum TypeCheckError {
    /// A data type name is declared twice.
    TypeAlreadyDefined,
    /// A constructor or function name is declared twice.
    SymbolAlreadyDefined,
    /// A stack shape or a pattern does not match what is expected.
    TypeMismatch,
    /// A word resolves to neither a local nor a global symbol.
    UnboundSymbol,
}

/// A checker for programs: it holds the declared type names, the global
/// table of constructor and function signatures, and the local scope of the
/// branch being checked.
pub struct TypeChecker {
    types: Vec<String>,
    ctx: Vec<(String, Type)>,
    locals: Vec<(String, Type)>,
}

/// The model of a scope held as a vector.
pub open spec fn scope_of(v: Seq<(String, Type)>) -> Scope {
    v.map_values(|p: (String, Type)| (p.0@, p.1@))
}

/// The model of a list of names.
pub open spec fn names_of(v: Seq<String>) -> Seq<Seq<char>> {
    v.map_values(|s: String| s@)
}

impl View for TypeChecker {
    type V = CheckerModel;

    closed spec fn view(&self) -> CheckerModel {
        CheckerModel {
            types: names_of(self.types@),
            ctx: scope_of(self.ctx@),
            locals: scope_of(self.locals@),
        }
    }
}

/// The index of the most recent binding of `name` in `scope`.
fn lookup_index(scope: &Vec<(String, Type)>, name: &String) -> (r: Option<usize>)
    ensures
        match r {
            Some(i) => i < scope.len() && lookup(scope_of(scope@), name@) == Some(
                scope@[i as int].1@,
            ),
            None => lookup(scope_of(scope@), name@) is None,
        },
{
    let ghost whole = scope_of(scope@);
    let mut i: usize = scope.len();
    assert(whole.take(i as int) =~= whole);
    while i > 0
        invariant
            i <= scope.len(),
            whole == scope_of(scope@),
            lookup(whole, name@) == lookup(whole.take(i as int), name@),
        decreases i,
    {
        assert(whole.take(i as int).drop_last() =~= whole.take(i - 1));
        if scope[i - 1].0 == *name {
            return Some(i - 1);
        }
        i -= 1;
    }
    assert(whole.take(0).len() == 0);
    None
}

impl TypeChecker {
    /// A checker with no declarations and an empty local scope.
    pub fn new() -> (r: Self)
        ensures
            r@ == CheckerModel::empty(),
    {
        let r = TypeChecker { types: Vec::new(), ctx: Vec::new(), locals: Vec::new() };
        assert(r@.types =~= Seq::empty());
        assert(r@.ctx =~= Seq::empty());
        assert(r@.locals =~= Seq::empty());
        r
    }

    /// Forgets every declaration, so that the checker can be driven again.
    pub fn reset(&mut self)
        ensures
            final(self)@ == CheckerModel::empty(),
    {
        *self = TypeChecker::new();
    }

    /// The type that a written type denotes.
    fn type_expr(&self, type_expr: &TypeExpr) -> (r: Type)
        ensures
            r@ == lower(*type_expr),
        decreases type_expr,
    {
        match type_expr {
            TypeExpr::Word(word) => Type::Basic(word.clone()),
            TypeExpr::Quotation { inputs, outputs } => Type::Quotation {
                inputs: self.type_exprs(inputs),
                outputs: self.type_exprs(outputs),
            },
        }
    }

    fn type_exprs(&self, type_exprs: &Vec<TypeExpr>) -> (r: Vec<Type>)
        ensures
            tys_of(r@) == lower_all(type_exprs@),
        decreases type_exprs,
    {
        let mut r: Vec<Type> = Vec::new();
        let mut i: usize = 0;
        while i < type_exprs.len()
            invariant
                i <= type_exprs.len(),
                tys_of(r@) == lower_all(type_exprs@.take(i as int)),
            decreases type_exprs.len() - i,
        {
            proof {
                assert(decreases_to!(type_exprs => type_exprs[i as int]));
            }
            let ghost before = r@;
            r.push(self.type_expr(&type_exprs[i]));
            assert(r@.drop_last() =~= before);
            assert(type_exprs@.take(i + 1).drop_last() =~= type_exprs@.take(i as int));
            i += 1;
        }
        assert(type_exprs@.take(i as int) =~= type_exprs@);
        r
    }

    /// What a word denotes: locals first, then the global table.
    fn resolve_word(&self, word: &String) -> (r: Result<Type, TypeCheckError>)
        ensures
            match resolve(self@.ctx, self@.locals, word@) {
                Some(t) => r is Ok && r->Ok_0@ == t,
                None => r == Err::<Type, TypeCheckError>(TypeCheckError::UnboundSymbol),
            },
    {
        match lookup_index(&self.locals, word) {
            Some(i) => Ok(self.locals[i].1.copied()),
            None => match lookup_index(&self.ctx, word) {
                Some(i) => Ok(self.ctx[i].1.copied()),
                None => Err(TypeCheckError::UnboundSymbol),
            },
        }
    }
    /// Runs one expression on the simulated `stack`.
    fn type_check_expr(&self, expr: &Expr, stack: &mut Vec<Type>) -> (r: Result<(), TypeCheckError>)
        ensures
            match check_expr(self@.ctx, self@.locals, *expr, tys_of(old(stack)@)) {
                Ok(s) => r is Ok && tys_of(final(stack)@) == s,
                Err(err) => r == Err::<(), TypeCheckError>(err),
            },
        decreases expr,
    {
        let ghost old_stack = stack@;
        proof {
            lemma_tys_of_len(old_stack);
        }
        match expr {
            Expr::Word(word) => {
                let ty = match self.resolve_word(word) {
                    Ok(ty) => ty,
                    Err(err) => return Err(err),
                };
                match ty {
                    Type::Function { inputs, outputs } => apply_signature(stack, &inputs, outputs),
                    value => {
                        stack.push(value);
                        assert(stack@.drop_last() =~= old_stack);
                        Ok(())
                    },
                }
            },
            Expr::Quotation { inputs, quotation } => {
                let inputs = self.type_exprs(inputs);
                let mut outputs = copy_types(&inputs);
                match self.type_check_body(quotation, &mut outputs) {
                    Ok(()) => {},
                    Err(err) => return Err(err),
                }
                stack.push(Type::Quotation { inputs, outputs });
                assert(stack@.drop_last() =~= old_stack);
                assert(tys_of(stack@) == tys_of(stack@.drop_last()).push(ty_of(stack@.last())));
                Ok(())
            },
            Expr::Unquote => {
                proof {
                    if old_stack.len() > 0 {
                        assert(tys_of(old_stack).drop_last() =~= tys_of(old_stack.drop_last()));
                        lemma_tys_of_index(old_stack, old_stack.len() - 1);
                    }
                }
                match stack.pop() {
                    Some(Type::Quotation { inputs, outputs }) => apply_signature(
                        stack,
                        &inputs,
                        outputs,
                    ),
                    _ => Err(TypeCheckError::TypeMismatch),
                }
            },
        }
    }

    /// Runs a sequence of expressions, left to right, on the simulated `stack`.
    fn type_check_body(&self, body: &Vec<Expr>, stack: &mut Vec<Type>) -> (r: Result<
        (),
        TypeCheckError,
    >)
        ensures
            match check_body(self@.ctx, self@.locals, body@, tys_of(old(stack)@)) {
                Ok(s) => r is Ok && tys_of(final(stack)@) == s,
                Err(err) => r == Err::<(), TypeCheckError>(err),
            },
        decreases body,
    {
        let ghost start = tys_of(stack@);
        let mut i: usize = 0;
        assert(body@.take(0).len() == 0);
        while i < body.len()
            invariant
                i <= body.len(),
                start == tys_of(old(stack)@),
                check_body(self@.ctx, self@.locals, body@.take(i as int), start) == Ok::<
                    Seq<Ty>,
                    TypeCheckError,
                >(tys_of(stack@)),
            decreases body.len() - i,
        {
            proof {
                assert(decreases_to!(body => body[i as int]));
                assert(body@.take(i + 1).drop_last() =~= body@.take(i as int));
            }
            let step = self.type_check_expr(&body[i], stack);
            if let Err(err) = step {
                proof {
                    assert(body@.take(i + 1).last() == body@[i as int]);
                    lemma_body_stops(self@.ctx, self@.locals, body@, start, i + 1);
                }
                return Err(err);
            }
            i += 1;
        }
        assert(body@.take(i as int) =~= body@);
        Ok(())
    }
}

impl TypeChecker {
    /// Whether `pattern` fits a value of type `input`.
    fn pattern_fits(&self, input: &Type, pattern: &Pattern) -> (r: bool)
        ensures
            r == fits(self@.ctx, input@, *pattern),
        decreases pattern,
    {
        match pattern {
            Pattern::All(_) => true,
            Pattern::Constructor { name, arguments } => {
                let i = match lookup_index(&self.ctx, name) {
                    Some(i) => i,
                    None => return false,
                };
                match &self.ctx[i].1 {
                    Type::Function { inputs, outputs } => {
                        proof {
                            lemma_tys_of_len(inputs@);
                            lemma_tys_of_len(outputs@);
                        }
                        if outputs.len() != 1 {
                            return false;
                        }
                        proof {
                            lemma_tys_of_index(outputs@, 0);
                        }
                        if !same_type(&outputs[0], input) {
                            return false;
                        }
                        if inputs.len() != arguments.len() {
                            return false;
                        }
                        proof {
                            lemma_fits_all_pointwise(self@.ctx, tys_of(inputs@), arguments@);
                        }
                        assert(fits(self@.ctx, input@, *pattern) <==> forall|j: int|
                            0 <= j < arguments.len() ==> fits(
                                self@.ctx,
                                #[trigger] tys_of(inputs@)[j],
                                arguments@[j],
                            ));
                        let mut k: usize = 0;
                        while k < arguments.len()
                            invariant
                                k <= arguments.len(),
                                *pattern == (Pattern::Constructor {
                                    name: *name,
                                    arguments: *arguments,
                                }),
                                fits(self@.ctx, input@, *pattern) <==> forall|j: int|
                                    0 <= j < arguments.len() ==> fits(
                                        self@.ctx,
                                        #[trigger] tys_of(inputs@)[j],
                                        arguments@[j],
                                    ),
                                inputs.len() == arguments.len(),
                                tys_of(inputs@).len() == inputs.len(),
                                forall|j: int|
                                    0 <= j < k ==> fits(
                                        self@.ctx,
                                        #[trigger] tys_of(inputs@)[j],
                                        arguments@[j],
                                    ),
                            decreases arguments.len() - k,
                        {
                            proof {
                                assert(decreases_to!(*pattern => pattern->Constructor_arguments));
                        assert(decreases_to!(*arguments => arguments[k as int]));
                                lemma_tys_of_index(inputs@, k as int);
                            }
                            if !self.pattern_fits(&inputs[k], &arguments[k]) {
                                return false;
                            }
                            k += 1;
                        }
                        true
                    },
                    _ => false,
                }
            },
        }
    }

    /// Binds the names of `pattern`, matched against `input`, in the local scope.
    fn define_pattern_locals(&mut self, input: &Type, pattern: &Pattern)
        requires
            fits(old(self)@.ctx, input@, *pattern),
        ensures
            final(self)@.types == old(self)@.types,
            final(self)@.ctx == old(self)@.ctx,
            final(self)@.locals == bind(old(self)@.ctx, old(self)@.locals, input@, *pattern),
        decreases pattern,
    {
        let ghost before = self.locals@;
        match pattern {
            Pattern::All(name) => {
                self.locals.push((name.clone(), input.copied()));
                assert(scope_of(self.locals@) =~= scope_of(before).push((name@, input@)));
            },
            Pattern::Constructor { name, arguments } => {
                let inputs = match lookup_index(&self.ctx, name) {
                    Some(i) => match &self.ctx[i].1 {
                        Type::Function { inputs, .. } => copy_types(inputs),
                        _ => Vec::new(),
                    },
                    None => Vec::new(),
                };
                let ghost ctx = self@.ctx;
                let ghost start = self@.locals;
                proof {
                    lemma_tys_of_len(inputs@);
                    lemma_fits_all_pointwise(ctx, tys_of(inputs@), arguments@);
                    assert(tys_of(inputs@).take(0) =~= Seq::<Ty>::empty());
                    assert(arguments@.take(0) =~= Seq::<Pattern>::empty());
                }
                let mut k: usize = 0;
                while k < arguments.len()
                    invariant
                        k <= arguments.len(),
                        *pattern == (Pattern::Constructor { name: *name, arguments: *arguments }),
                        inputs.len() == arguments.len(),
                        tys_of(inputs@).len() == inputs.len(),
                        self@.ctx == ctx,
                        self@.types == old(self)@.types,
                        forall|j: int|
                            0 <= j < arguments.len() ==> fits(
                                ctx,
                                #[trigger] tys_of(inputs@)[j],
                                arguments@[j],
                            ),
                        self@.locals == bind_all(
                            ctx,
                            start,
                            tys_of(inputs@).take(k as int),
                            arguments@.take(k as int),
                        ),
                    decreases arguments.len() - k,
                {
                    proof {
                        assert(decreases_to!(*pattern => pattern->Constructor_arguments));
                        assert(decreases_to!(*arguments => arguments[k as int]));
                        lemma_tys_of_index(inputs@, k as int);
                        assert(tys_of(inputs@).take(k + 1).drop_last() =~= tys_of(inputs@).take(
                            k as int,
                        ));
                        assert(arguments@.take(k + 1).drop_last() =~= arguments@.take(k as int));
                    }
                    self.define_pattern_locals(&inputs[k], &arguments[k]);
                    k += 1;
                }
                assert(tys_of(inputs@).take(k as int) =~= tys_of(inputs@));
                assert(arguments@.take(k as int) =~= arguments@);
            },
        }
    }
}

impl TypeChecker {
    /// Checks one branch of a definition with signature `inputs -> outputs`;
    /// the bindings of its patterns are dropped afterwards.
    fn type_check_branch(&mut self, inputs: &Vec<Type>, outputs: &Vec<Type>, branch: &Branch) -> (r:
        Result<(), TypeCheckError>)
        ensures
            r == check_branch(
                old(self)@.ctx,
                old(self)@.locals,
                tys_of(inputs@),
                tys_of(outputs@),
                *branch,
            ),
            final(self)@ == old(self)@,
    {
        let ghost ctx = self@.ctx;
        let ghost start = self@.locals;
        let ghost all = tys_of(inputs@);
        let patterns = &branch.patterns;
        let n = patterns.len();
        proof {
            lemma_tys_of_len(inputs@);
        }
        if n > inputs.len() {
            return Err(TypeCheckError::TypeMismatch);
        }
        let ghost matched = all.take(n as int);
        proof {
            lemma_fits_all_pointwise(ctx, matched, patterns@);
        }
        let mut k: usize = 0;
        while k < n
            invariant
                k <= n <= inputs.len(),
                n == patterns.len(),
                *patterns == branch.patterns,
                all == tys_of(inputs@),
                all.len() == inputs.len(),
                matched == all.take(n as int),
                self@ == old(self)@,
                ctx == self@.ctx,
                forall|j: int| 0 <= j < k ==> fits(ctx, #[trigger] matched[j], patterns@[j]),
                fits_all(ctx, matched, patterns@) <==> forall|j: int|
                    0 <= j < n ==> fits(ctx, #[trigger] matched[j], patterns@[j]),
            decreases n - k,
        {
            proof {
                lemma_tys_of_index(inputs@, k as int);
                assert(matched[k as int] == inputs@[k as int]@);
            }
            if !self.pattern_fits(&inputs[k], &patterns[k]) {
                assert(!fits_all(ctx, matched, patterns@));
                return Err(TypeCheckError::TypeMismatch);
            }
            k += 1;
        }
        let saved = self.locals.len();
        let mut k: usize = 0;
        assert(matched.take(0) =~= Seq::<Ty>::empty());
        assert(patterns@.take(0) =~= Seq::<Pattern>::empty());
        while k < n
            invariant
                k <= n <= inputs.len(),
                n == patterns.len(),
                *patterns == branch.patterns,
                all == tys_of(inputs@),
                all.len() == inputs.len(),
                matched == all.take(n as int),
                self@.types == old(self)@.types,
                self@.ctx == ctx,
                forall|j: int| 0 <= j < n ==> fits(ctx, #[trigger] matched[j], patterns@[j]),
                self@.locals == bind_all(
                    ctx,
                    start,
                    matched.take(k as int),
                    patterns@.take(k as int),
                ),
            decreases n - k,
        {
            proof {
                lemma_tys_of_index(inputs@, k as int);
                assert(matched[k as int] == inputs@[k as int]@);
                assert(matched.take(k + 1).drop_last() =~= matched.take(k as int));
                assert(patterns@.take(k + 1).drop_last() =~= patterns@.take(k as int));
            }
            self.define_pattern_locals(&inputs[k], &patterns[k]);
            k += 1;
        }
        assert(matched.take(n as int) =~= matched);
        assert(patterns@.take(n as int) =~= patterns@);
        let mut stack: Vec<Type> = Vec::new();
        let mut k: usize = n;
        assert(all.subrange(n as int, n as int) =~= Seq::<Ty>::empty());
        while k < inputs.len()
            invariant
                n <= k <= inputs.len(),
                all == tys_of(inputs@),
                all.len() == inputs.len(),
                tys_of(stack@) == all.subrange(n as int, k as int),
            decreases inputs.len() - k,
        {
            let ghost before = stack@;
            proof {
                lemma_tys_of_index(inputs@, k as int);
            }
            stack.push(inputs[k].copied());
            assert(stack@.drop_last() =~= before);
            assert(all.subrange(n as int, k + 1).drop_last() =~= all.subrange(n as int, k as int));
            k += 1;
        }
        assert(all.subrange(n as int, all.len() as int) =~= all.skip(n as int));
        let res = self.type_check_body(&branch.body, &mut stack);
        proof {
            lemma_bind_all_extends(ctx, start, matched, patterns@);
        }
        let ghost bound = self.locals@;
        self.locals.truncate(saved);
        assert(scope_of(self.locals@) =~= scope_of(bound).take(start.len() as int));
        assert(self@.locals =~= old(self)@.locals);
        match res {
            Err(err) => Err(err),
            Ok(()) => {
                assert(stack@.subrange(0, stack.len() as int) =~= stack@);
                if same_types_from(&stack, 0, outputs) {
                    Ok(())
                } else {
                    Err(TypeCheckError::TypeMismatch)
                }
            },
        }
    }
}

/// Whether `name` is among `names`.
fn contains_name(names: &Vec<String>, name: &String) -> (r: bool)
    ensures
        r == names_of(names@).contains(name@),
{
    let mut i: usize = 0;
    while i < names.len()
        invariant
            i <= names.len(),
            forall|j: int| 0 <= j < i ==> names@[j]@ != name@,
        decreases names.len() - i,
    {
        if names[i] == *name {
            assert(names_of(names@)[i as int] == name@);
            return true;
        }
        i += 1;
    }
    assert forall|j: int| 0 <= j < names_of(names@).len() implies names_of(names@)[j] != name@ by {
        assert(names_of(names@)[j] == names@[j]@);
    }
    false
}

impl TypeChecker {
    /// Registers `name` with type `t` in the global table, unless it is taken.
    fn declare(&mut self, name: &String, t: Type) -> (r: Result<(), TypeCheckError>)
        ensures
            final(self)@.types == old(self)@.types,
            final(self)@.locals == old(self)@.locals,
            match declare(old(self)@.ctx, name@, t@) {
                Ok(c) => r is Ok && final(self)@.ctx == c,
                Err(err) => r == Err::<(), TypeCheckError>(err),
            },
    {
        if lookup_index(&self.ctx, name).is_some() {
            return Err(TypeCheckError::SymbolAlreadyDefined);
        }
        let ghost before = self.ctx@;
        let ghost entry = (name@, t@);
        self.ctx.push((name.clone(), t));
        assert(scope_of(self.ctx@) =~= scope_of(before).push(entry));
        Ok(())
    }

    /// Registers the name of every data declaration.
    fn collect_types(&mut self, top_levels: &[TopLevel]) -> (r: Result<(), TypeCheckError>)
        ensures
            final(self)@.ctx == old(self)@.ctx,
            final(self)@.locals == old(self)@.locals,
            match collect_types(old(self)@.types, top_levels@) {
                Ok(ts) => r is Ok && final(self)@.types == ts,
                Err(err) => r == Err::<(), TypeCheckError>(err),
            },
    {
        let ghost start = self@.types;
        let mut i: usize = 0;
        assert(top_levels@.take(0).len() == 0);
        while i < top_levels.len()
            invariant
                i <= top_levels.len(),
                start == old(self)@.types,
                self@.ctx == old(self)@.ctx,
                self@.locals == old(self)@.locals,
                collect_types(start, top_levels@.take(i as int)) == Ok::<
                    Seq<Seq<char>>,
                    TypeCheckError,
                >(self@.types),
            decreases top_levels.len() - i,
        {
            assert(top_levels@.take(i + 1).drop_last() =~= top_levels@.take(i as int));
            assert(top_levels@.take(i + 1).last() == top_levels@[i as int]);
            if let TopLevel::Data { name, .. } = &top_levels[i] {
                if contains_name(&self.types, name) {
                    proof {
                        lemma_types_stop(start, top_levels@, i + 1);
                    }
                    return Err(TypeCheckError::TypeAlreadyDefined);
                }
                let ghost before = self.types@;
                self.types.push(name.clone());
                assert(names_of(self.types@) =~= names_of(before).push(name@));
            }
            i += 1;
        }
        assert(top_levels@.take(i as int) =~= top_levels@);
        Ok(())
    }

    /// Registers the signature of every constructor.
    fn collect_constructors(&mut self, top_levels: &[TopLevel]) -> (r: Result<(), TypeCheckError>)
        ensures
            final(self)@.types == old(self)@.types,
            final(self)@.locals == old(self)@.locals,
            match collect_constructors(old(self)@.ctx, top_levels@) {
                Ok(c) => r is Ok && final(self)@.ctx == c,
                Err(err) => r == Err::<(), TypeCheckError>(err),
            },
    {
        let ghost start = self@.ctx;
        let mut i: usize = 0;
        assert(top_levels@.take(0).len() == 0);
        while i < top_levels.len()
            invariant
                i <= top_levels.len(),
                start == old(self)@.ctx,
                self@.types == old(self)@.types,
                self@.locals == old(self)@.locals,
                collect_constructors(start, top_levels@.take(i as int)) == Ok::<
                    Scope,
                    TypeCheckError,
                >(self@.ctx),
            decreases top_levels.len() - i,
        {
            assert(top_levels@.take(i + 1).drop_last() =~= top_levels@.take(i as int));
            assert(top_levels@.take(i + 1).last() == top_levels@[i as int]);
            if let TopLevel::Data { name: data_name, constructors } = &top_levels[i] {
                let ghost before = self@.ctx;
                let mut k: usize = 0;
                assert(constructors@.take(0).len() == 0);
                while k < constructors.len()
                    invariant
                        k <= constructors.len(),
                        i < top_levels.len(),
                        start == old(self)@.ctx,
                        collect_constructors(start, top_levels@.take(i as int)) == Ok::<
                            Scope,
                            TypeCheckError,
                        >(before),
                        top_levels@.take(i + 1).drop_last() == top_levels@.take(i as int),
                        top_levels@.take(i + 1).last() == (TopLevel::Data {
                            name: *data_name,
                            constructors: *constructors,
                        }),
                        self@.types == old(self)@.types,
                        self@.locals == old(self)@.locals,
                        collect_constructor_list(
                            before,
                            data_name@,
                            constructors@.take(k as int),
                        ) == Ok::<Scope, TypeCheckError>(self@.ctx),
                    decreases constructors.len() - k,
                {
                    assert(constructors@.take(k + 1).drop_last() =~= constructors@.take(k as int));
                    assert(constructors@.take(k + 1).last() == constructors@[k as int]);
                    let constructor = &constructors[k];
                    let inputs = self.type_exprs(&constructor.argument_types);
                    let mut outputs: Vec<Type> = Vec::new();
                    outputs.push(Type::Basic(data_name.clone()));
                    proof {
                        lemma_tys_of_len(outputs@);
                        lemma_tys_of_index(outputs@, 0);
                        assert(tys_of(outputs@) =~= seq![Ty::Basic(data_name@)]);
                    }
                    if let Err(err) = self.declare(
                        &constructor.name,
                        Type::Function { inputs, outputs },
                    ) {
                        proof {
                            lemma_constructor_list_stops(before, data_name@, constructors@, k + 1);
                            lemma_constructors_stop(start, top_levels@, i + 1);
                        }
                        return Err(err);
                    }
                    k += 1;
                }
                assert(constructors@.take(k as int) =~= constructors@);
            }
            i += 1;
        }
        assert(top_levels@.take(i as int) =~= top_levels@);
        Ok(())
    }

    /// Registers the signature of every function definition.
    fn collect_defs(&mut self, top_levels: &[TopLevel]) -> (r: Result<(), TypeCheckError>)
        ensures
            final(self)@.types == old(self)@.types,
            final(self)@.locals == old(self)@.locals,
            match collect_defs(old(self)@.ctx, top_levels@) {
                Ok(c) => r is Ok && final(self)@.ctx == c,
                Err(err) => r == Err::<(), TypeCheckError>(err),
            },
    {
        let ghost start = self@.ctx;
        let mut i: usize = 0;
        assert(top_levels@.take(0).len() == 0);
        while i < top_levels.len()
            invariant
                i <= top_levels.len(),
                start == old(self)@.ctx,
                self@.types == old(self)@.types,
                self@.locals == old(self)@.locals,
                collect_defs(start, top_levels@.take(i as int)) == Ok::<Scope, TypeCheckError>(
                    self@.ctx,
                ),
            decreases top_levels.len() - i,
        {
            assert(top_levels@.take(i + 1).drop_last() =~= top_levels@.take(i as int));
            assert(top_levels@.take(i + 1).last() == top_levels@[i as int]);
            if let TopLevel::Def { name, inputs, outputs, .. } = &top_levels[i] {
                let ty = Type::Function {
                    inputs: self.type_exprs(inputs),
                    outputs: self.type_exprs(outputs),
                };
                if let Err(err) = self.declare(name, ty) {
                    proof {
                        lemma_defs_stop(start, top_levels@, i + 1);
                    }
                    return Err(err);
                }
            }
            i += 1;
        }
        assert(top_levels@.take(i as int) =~= top_levels@);
        Ok(())
    }

    /// Checks the branches of every function definition against its signature.
    fn type_check_defs(&mut self, top_levels: &[TopLevel]) -> (r: Result<(), TypeCheckError>)
        ensures
            final(self)@ == old(self)@,
            r == check_defs(old(self)@.ctx, old(self)@.locals, top_levels@),
    {
        let ghost ctx = self@.ctx;
        let ghost locals = self@.locals;
        let mut i: usize = 0;
        assert(top_levels@.take(0).len() == 0);
        while i < top_levels.len()
            invariant
                i <= top_levels.len(),
                self@ == old(self)@,
                ctx == self@.ctx,
                locals == self@.locals,
                check_defs(ctx, locals, top_levels@.take(i as int)) == Ok::<(), TypeCheckError>(()),
            decreases top_levels.len() - i,
        {
            assert(top_levels@.take(i + 1).drop_last() =~= top_levels@.take(i as int));
            assert(top_levels@.take(i + 1).last() == top_levels@[i as int]);
            if let TopLevel::Def { inputs, outputs, branches, .. } = &top_levels[i] {
                let ins = self.type_exprs(inputs);
                let outs = self.type_exprs(outputs);
                let mut k: usize = 0;
                assert(branches@.take(0).len() == 0);
                while k < branches.len()
                    invariant
                        k <= branches.len(),
                        i < top_levels.len(),
                        check_defs(ctx, locals, top_levels@.take(i as int)) == Ok::<
                            (),
                            TypeCheckError,
                        >(()),
                        top_levels@.take(i + 1).drop_last() == top_levels@.take(i as int),
                        top_levels@.take(i + 1).last() is Def,
                        top_levels@.take(i + 1).last()->Def_branches == *branches,
                        lower_all(top_levels@.take(i + 1).last()->Def_inputs@) == tys_of(ins@),
                        lower_all(top_levels@.take(i + 1).last()->Def_outputs@) == tys_of(outs@),
                        self@ == old(self)@,
                        ctx == self@.ctx,
                        locals == self@.locals,
                        check_branches(
                            ctx,
                            locals,
                            tys_of(ins@),
                            tys_of(outs@),
                            branches@.take(k as int),
                        ) == Ok::<(), TypeCheckError>(()),
                    decreases branches.len() - k,
                {
                    assert(branches@.take(k + 1).drop_last() =~= branches@.take(k as int));
                    assert(branches@.take(k + 1).last() == branches@[k as int]);
                    if let Err(err) = self.type_check_branch(&ins, &outs, &branches[k]) {
                        proof {
                            lemma_branches_stop(
                                ctx,
                                locals,
                                tys_of(ins@),
                                tys_of(outs@),
                                branches@,
                                k + 1,
                            );
                            lemma_defs_check_stops(ctx, locals, top_levels@, i + 1);
                        }
                        return Err(err);
                    }
                    k += 1;
                }
                assert(branches@.take(k as int) =~= branches@);
            }
            i += 1;
        }
        assert(top_levels@.take(i as int) =~= top_levels@);
        Ok(())
    }

    /// Checks a program: registers its type names, then its constructors,
    /// then its function signatures, then checks every definition's branches,
    /// stopping at the first failure.
    pub fn type_check(&mut self, top_levels: &[TopLevel]) -> (r: Result<(), TypeCheckError>)
        ensures
            match run_check(old(self)@, top_levels@) {
                Ok(s) => r is Ok && final(self)@ == s,
                Err(err) => r == Err::<(), TypeCheckError>(err) && final(self)@.locals == old(
                    self,
                )@.locals,
            },
    {
        if let Err(err) = self.collect_types(top_levels) {
            return Err(err);
        }
        if let Err(err) = self.collect_constructors(top_levels) {
            return Err(err);
        }
        if let Err(err) = self.collect_defs(top_levels) {
            return Err(err);
        }
        self.type_check_defs(top_levels)
    }
}

/// Once a prefix of a program repeats a type name, so does the program.
proof fn lemma_types_stop(types: Seq<Seq<char>>, prog: Seq<TopLevel>, k: int)
    requires
        0 <= k <= prog.len(),
        collect_types(types, prog.take(k)) is Err,
    ensures
        collect_types(types, prog) == collect_types(types, prog.take(k)),
    decreases prog.len() - k,
{
    if k < prog.len() {
        assert(prog.take(k + 1).drop_last() =~= prog.take(k));
        lemma_types_stop(types, prog, k + 1);
    } else {
        assert(prog.take(k) =~= prog);
    }
}

proof fn lemma_constructor_list_stops(ctx: Scope, data_name: Seq<char>, cs: Seq<Constructor>, k: int)
    requires
        0 <= k <= cs.len(),
        collect_constructor_list(ctx, data_name, cs.take(k)) is Err,
    ensures
        collect_constructor_list(ctx, data_name, cs) == collect_constructor_list(
            ctx,
            data_name,
            cs.take(k),
        ),
    decreases cs.len() - k,
{
    if k < cs.len() {
        assert(cs.take(k + 1).drop_last() =~= cs.take(k));
        lemma_constructor_list_stops(ctx, data_name, cs, k + 1);
    } else {
        assert(cs.take(k) =~= cs);
    }
}

proof fn lemma_constructors_stop(ctx: Scope, prog: Seq<TopLevel>, k: int)
    requires
        0 <= k <= prog.len(),
        collect_constructors(ctx, prog.take(k)) is Err,
    ensures
        collect_constructors(ctx, prog) == collect_constructors(ctx, prog.take(k)),
    decreases prog.len() - k,
{
    if k < prog.len() {
        assert(prog.take(k + 1).drop_last() =~= prog.take(k));
        lemma_constructors_stop(ctx, prog, k + 1);
    } else {
        assert(prog.take(k) =~= prog);
    }
}

proof fn lemma_defs_stop(ctx: Scope, prog: Seq<TopLevel>, k: int)
    requires
        0 <= k <= prog.len(),
        collect_defs(ctx, prog.take(k)) is Err,
    ensures
        collect_defs(ctx, prog) == collect_defs(ctx, prog.take(k)),
    decreases prog.len() - k,
{
    if k < prog.len() {
        assert(prog.take(k + 1).drop_last() =~= prog.take(k));
        lemma_defs_stop(ctx, prog, k + 1);
    } else {
        assert(prog.take(k) =~= prog);
    }
}

proof fn lemma_branches_stop(
    ctx: Scope,
    locals: Scope,
    inputs: Seq<Ty>,
    outputs: Seq<Ty>,
    bs: Seq<Branch>,
    k: int,
)
    requires
        0 <= k <= bs.len(),
        check_branches(ctx, locals, inputs, outputs, bs.take(k)) is Err,
    ensures
        check_branches(ctx, locals, inputs, outputs, bs) == check_branches(
            ctx,
            locals,
            inputs,
            outputs,
            bs.take(k),
        ),
    decreases bs.len() - k,
{
    if k < bs.len() {
        assert(bs.take(k + 1).drop_last() =~= bs.take(k));
        lemma_branches_stop(ctx, locals, inputs, outputs, bs, k + 1);
    } else {
        assert(bs.take(k) =~= bs);
    }
}

proof fn lemma_defs_check_stops(ctx: Scope, locals: Scope, prog: Seq<TopLevel>, k: int)
    requires
        0 <= k <= prog.len(),
        check_defs(ctx, locals, prog.take(k)) is Err,
    ensures
        check_defs(ctx, locals, prog) == check_defs(ctx, locals, prog.take(k)),
    decreases prog.len() - k,
{
    if k < prog.len() {
        assert(prog.take(k + 1).drop_last() =~= prog.take(k));
        lemma_defs_check_stops(ctx, locals, prog, k + 1);
    } else {
        assert(prog.take(k) =~= prog);
    }
}

/// Binding the names of a pattern only adds to the scope.
proof fn lemma_bind_extends(ctx: Scope, locals: Scope, t: Ty, p: Pattern)
    ensures
        bind(ctx, locals, t, p).len() >= locals.len(),
        bind(ctx, locals, t, p).take(locals.len() as int) == locals,
    decreases p,
{
    match p {
        Pattern::All(name) => {
            assert(locals.push((name@, t)).take(locals.len() as int) =~= locals);
        },
        Pattern::Constructor { name, arguments } => {
            assert(locals.take(locals.len() as int) =~= locals);
            match lookup(ctx, name@) {
                Some(Ty::Function(inputs, _)) => {
                    lemma_bind_all_extends(ctx, locals, inputs, arguments@);
                },
                _ => {},
            }
        },
    }
}

proof fn lemma_bind_all_extends(ctx: Scope, locals: Scope, ts: Seq<Ty>, ps: Seq<Pattern>)
    ensures
        bind_all(ctx, locals, ts, ps).len() >= locals.len(),
        bind_all(ctx, locals, ts, ps).take(locals.len() as int) == locals,
    decreases ps,
{
    if ps.len() == 0 {
        assert(locals.take(locals.len() as int) =~= locals);
    } else {
        let mid = bind_all(ctx, locals, ts.drop_last(), ps.drop_last());
        lemma_bind_all_extends(ctx, locals, ts.drop_last(), ps.drop_last());
        lemma_bind_extends(ctx, mid, ts.last(), ps.last());
        let full = bind(ctx, mid, ts.last(), ps.last());
        assert(full.take(locals.len() as int) =~= full.take(mid.len() as int).take(
            locals.len() as int,
        ));
    }
}

/// Patterns fit, taken together, exactly when each fits at its place.
proof fn lemma_fits_all_pointwise(ctx: Scope, ts: Seq<Ty>, ps: Seq<Pattern>)
    requires
        ts.len() == ps.len(),
    ensures
        fits_all(ctx, ts, ps) <==> forall|j: int|
            0 <= j < ps.len() ==> fits(ctx, #[trigger] ts[j], ps[j]),
    decreases ps.len(),
{
    if ps.len() > 0 {
        lemma_fits_all_pointwise(ctx, ts.drop_last(), ps.drop_last());
        if fits_all(ctx, ts, ps) {
            assert forall|j: int| 0 <= j < ps.len() implies fits(ctx, #[trigger] ts[j], ps[j]) by {
                if j < ps.len() - 1 {
                    assert(ts.drop_last()[j] == ts[j]);
                }
            }
        } else if forall|j: int| 0 <= j < ps.len() ==> fits(ctx, #[trigger] ts[j], ps[j]) {
            assert forall|j: int| 0 <= j < ps.len() - 1 implies fits(
                ctx,
                #[trigger] ts.drop_last()[j],
                ps.drop_last()[j],
            ) by {
                assert(ts.drop_last()[j] == ts[j]);
            }
            assert(fits(ctx, ts[ps.len() - 1], ps[ps.len() - 1]));
        }
    }
}

/// Once a prefix of a body fails, the whole body fails the same way.
proof fn lemma_body_stops(ctx: Scope, locals: Scope, es: Seq<Expr>, stack: Seq<Ty>, k: int)
    requires
        0 <= k <= es.len(),
        check_body(ctx, locals, es.take(k), stack) is Err,
    ensures
        check_body(ctx, locals, es, stack) == check_body(ctx, locals, es.take(k), stack),
    decreases es.len() - k,
{
    if k < es.len() {
        assert(es.take(k + 1).drop_last() =~= es.take(k));
        lemma_body_stops(ctx, locals, es, stack, k + 1);
    } else {
        assert(es.take(k) =~= es);
    }
}

/// Applies the effect `inputs -> outputs` to the top of `stack`.
fn apply_signature(stack: &mut Vec<Type>, inputs: &Vec<Type>, outputs: Vec<Type>) -> (r: Result<
    (),
    TypeCheckError,
>)
    ensures
        match apply_effect(tys_of(old(stack)@), tys_of(inputs@), tys_of(outputs@)) {
            Ok(s) => r is Ok && tys_of(final(stack)@) == s,
            Err(err) => r == Err::<(), TypeCheckError>(err),
        },
{
    let ghost old_stack = stack@;
    proof {
        lemma_tys_of_len(stack@);
        lemma_tys_of_len(inputs@);
    }
    if inputs.len() > stack.len() {
        return Err(TypeCheckError::TypeMismatch);
    }
    let start = stack.len() - inputs.len();
    proof {
        lemma_tys_of_subrange(stack@, start as int, stack.len() as int);
    }
    if !same_types_from(stack, start, inputs) {
        return Err(TypeCheckError::TypeMismatch);
    }
    let mut outputs = outputs;
    let ghost outs = outputs@;
    stack.truncate(start);
    stack.append(&mut outputs);
    proof {
        lemma_tys_of_subrange(old_stack, 0, start as int);
        lemma_tys_of_add(old_stack.subrange(0, start as int), outs);
    }
    Ok(())
}

} // verus!
