use stack_check::ast::{Branch, Constructor, Expr, Pattern, TopLevel, TypeExpr};
use stack_check::type_checker::{TypeCheckError, TypeChecker};
use stack_check::types::Type;

fn s(x: &str) -> String {
    x.to_string()
}

fn ty(name: &str) -> TypeExpr {
    TypeExpr::Word(s(name))
}

fn word(name: &str) -> Expr {
    Expr::Word(s(name))
}

fn all(name: &str) -> Pattern {
    Pattern::All(s(name))
}

fn ctor(name: &str, arguments: Vec<Pattern>) -> Pattern {
    Pattern::Constructor { name: s(name), arguments }
}

fn data(name: &str, constructors: Vec<(&str, Vec<TypeExpr>)>) -> TopLevel {
    TopLevel::Data {
        name: s(name),
        constructors: constructors
            .into_iter()
            .map(|(n, argument_types)| Constructor { name: s(n), argument_types })
            .collect(),
    }
}

fn def(name: &str, inputs: Vec<&str>, outputs: Vec<&str>, branches: Vec<Branch>) -> TopLevel {
    TopLevel::Def {
        name: s(name),
        inputs: inputs.into_iter().map(ty).collect(),
        outputs: outputs.into_iter().map(ty).collect(),
        branches,
    }
}

fn branch(patterns: Vec<Pattern>, body: Vec<Expr>) -> Branch {
    Branch { patterns, body }
}

fn bool_data() -> TopLevel {
    data("Bool", vec![("True", vec![]), ("False", vec![])])
}

fn not_def(extra: bool) -> TopLevel {
    let mut branches = vec![
        branch(vec![ctor("True", vec![])], vec![word("False")]),
        branch(vec![ctor("False", vec![])], vec![word("True")]),
    ];
    if extra {
        branches.push(branch(vec![ctor("True", vec![])], vec![word("True")]));
    }
    def("not", vec!["Bool"], vec!["Bool"], branches)
}

fn int_prims() -> Vec<TopLevel> {
    vec![
        def("dup", vec!["Int"], vec!["Int", "Int"], vec![]),
        def("mul", vec!["Int", "Int"], vec!["Int"], vec![]),
    ]
}

fn check(prog: &[TopLevel]) -> Result<(), TypeCheckError> {
    TypeChecker::new().type_check(prog)
}

#[test]
fn scenario_not_is_accepted() {
    assert_eq!(check(&[bool_data(), not_def(false)]), Ok(()));
}

#[test]
fn scenario_overlapping_branch_is_accepted() {
    assert_eq!(check(&[bool_data(), not_def(true)]), Ok(()));
}

#[test]
fn scenario_two_values_left_is_mismatch() {
    let bad = def("bad", vec!["Bool"], vec!["Bool"], vec![branch(vec![all("x")], vec![word("x"), word("x")])]);
    assert_eq!(check(&[bool_data(), bad]), Err(TypeCheckError::TypeMismatch));
}

#[test]
fn scenario_quotation_applied_to_int() {
    let mut prog = int_prims();
    let quote = Expr::Quotation { inputs: vec![ty("Int")], quotation: vec![word("dup"), word("mul")] };
    prog.push(def("square", vec!["Int"], vec!["Int"], vec![branch(vec![], vec![quote, Expr::Unquote])]));
    assert_eq!(check(&prog), Ok(()));
}

#[test]
fn scenario_apply_on_empty_stack() {
    let prog = [def("f", vec![], vec![], vec![branch(vec![], vec![Expr::Unquote])])];
    assert_eq!(check(&prog), Err(TypeCheckError::TypeMismatch));
}

#[test]
fn same_program_same_verdict() {
    let bad = def("bad", vec!["Bool"], vec!["Bool"], vec![branch(vec![all("x")], vec![word("x"), word("x")])]);
    let prog = [bool_data(), bad];
    assert_eq!(check(&prog), check(&prog));
    let mut checker = TypeChecker::new();
    let first = checker.type_check(&prog);
    checker.reset();
    assert_eq!(checker.type_check(&prog), first);
}

#[test]
fn checker_keeps_declarations_until_reset() {
    let prog = [bool_data(), not_def(false)];
    let mut checker = TypeChecker::new();
    assert_eq!(checker.type_check(&prog), Ok(()));
    assert_eq!(checker.type_check(&prog), Err(TypeCheckError::TypeAlreadyDefined));
    checker.reset();
    assert_eq!(checker.type_check(&prog), Ok(()));
}

#[test]
fn duplicate_data_type() {
    let prog = [bool_data(), data("Bool", vec![("Yes", vec![])])];
    assert_eq!(check(&prog), Err(TypeCheckError::TypeAlreadyDefined));
}

#[test]
fn duplicate_data_type_wins_over_mismatch() {
    let bad = def("bad", vec![], vec!["Bool"], vec![branch(vec![], vec![])]);
    let prog = [bad, bool_data(), data("Bool", vec![("Yes", vec![])])];
    assert_eq!(check(&prog), Err(TypeCheckError::TypeAlreadyDefined));
}

#[test]
fn duplicate_constructor() {
    let prog = [bool_data(), data("Answer", vec![("True", vec![])])];
    assert_eq!(check(&prog), Err(TypeCheckError::SymbolAlreadyDefined));
}

#[test]
fn duplicate_function() {
    let f1 = def("f", vec![], vec![], vec![]);
    let f2 = def("f", vec!["Int"], vec![], vec![]);
    assert_eq!(check(&[f1, f2]), Err(TypeCheckError::SymbolAlreadyDefined));
}

#[test]
fn function_named_like_constructor() {
    let f = def("True", vec![], vec![], vec![branch(vec![], vec![word("nothing")])]);
    assert_eq!(check(&[f, bool_data()]), Err(TypeCheckError::SymbolAlreadyDefined));
}

#[test]
fn call_consumes_inputs_and_produces_outputs() {
    let mut prog = int_prims();
    prog.push(def("twice", vec!["Int"], vec!["Int", "Int"], vec![branch(vec![], vec![word("dup")])]));
    prog.push(def("keep", vec!["Bool", "Int"], vec!["Bool", "Int"], vec![branch(vec![], vec![word("dup"), word("mul")])]));
    prog.push(bool_data());
    assert_eq!(check(&prog), Ok(()));
}

#[test]
fn call_with_too_few_values() {
    let mut prog = int_prims();
    prog.push(def("f", vec!["Int"], vec!["Int"], vec![branch(vec![], vec![word("mul")])]));
    assert_eq!(check(&prog), Err(TypeCheckError::TypeMismatch));
}

#[test]
fn call_with_wrong_types() {
    let mut prog = int_prims();
    prog.push(bool_data());
    prog.push(def("f", vec!["Bool"], vec!["Int", "Int"], vec![branch(vec![], vec![word("dup")])]));
    assert_eq!(check(&prog), Err(TypeCheckError::TypeMismatch));
}

#[test]
fn forward_reference_to_later_items() {
    let user = def("user", vec![], vec!["Bool"], vec![branch(vec![], vec![word("yes")])]);
    let yes = def("yes", vec![], vec!["Bool"], vec![branch(vec![], vec![word("True")])]);
    assert_eq!(check(&[user, yes, bool_data()]), Ok(()));
}

#[test]
fn unbound_word() {
    let f = def("f", vec![], vec![], vec![branch(vec![], vec![word("missing")])]);
    assert_eq!(check(&[f]), Err(TypeCheckError::UnboundSymbol));
}

#[test]
fn pattern_with_wrong_arity_does_not_fit() {
    let f = def("f", vec!["Bool"], vec![], vec![branch(vec![ctor("True", vec![all("x")])], vec![])]);
    assert_eq!(check(&[bool_data(), f]), Err(TypeCheckError::TypeMismatch));
}

#[test]
fn pattern_of_another_type_does_not_fit() {
    let f = def("f", vec!["Int"], vec![], vec![branch(vec![ctor("True", vec![])], vec![])]);
    assert_eq!(check(&[bool_data(), f]), Err(TypeCheckError::TypeMismatch));
}

#[test]
fn pattern_of_function_with_two_outputs_does_not_fit() {
    let mut prog = int_prims();
    prog.push(def("f", vec!["Int"], vec![], vec![branch(vec![ctor("dup", vec![all("x")])], vec![])]));
    assert_eq!(check(&prog), Err(TypeCheckError::TypeMismatch));
}

#[test]
fn more_patterns_than_inputs() {
    let f = def("f", vec!["Bool"], vec![], vec![branch(vec![all("a"), all("b")], vec![])]);
    assert_eq!(check(&[bool_data(), f]), Err(TypeCheckError::TypeMismatch));
}

#[test]
fn nested_pattern_binds_arguments() {
    let pair = data("Pair", vec![("MkPair", vec![ty("Int"), ty("Bool")])]);
    let second = def(
        "second",
        vec!["Pair", "Int"],
        vec!["Int", "Bool"],
        vec![branch(vec![ctor("MkPair", vec![all("a"), all("b")])], vec![word("b")])],
    );
    assert_eq!(check(&[bool_data(), pair, second]), Ok(()));
}

#[test]
fn bindings_do_not_leak_into_next_branch() {
    let f = def(
        "f",
        vec!["Bool"],
        vec!["Bool"],
        vec![branch(vec![all("x")], vec![word("x")]), branch(vec![], vec![word("x")])],
    );
    assert_eq!(check(&[bool_data(), f]), Err(TypeCheckError::UnboundSymbol));
}

#[test]
fn bindings_do_not_leak_into_next_definition() {
    let f = def("f", vec!["Bool"], vec!["Bool"], vec![branch(vec![all("x")], vec![word("x")])]);
    let g = def("g", vec![], vec!["Bool"], vec![branch(vec![], vec![word("x")])]);
    assert_eq!(check(&[bool_data(), f, g]), Err(TypeCheckError::UnboundSymbol));
}

#[test]
fn same_name_with_other_type_in_each_branch() {
    let f = def(
        "f",
        vec!["Bool", "Int"],
        vec!["Bool", "Int"],
        vec![
            branch(vec![all("x")], vec![word("x")]),
            branch(vec![all("y"), all("x")], vec![word("y"), word("x")]),
        ],
    );
    let mut prog = vec![bool_data()];
    prog.push(f);
    assert_eq!(check(&prog), Err(TypeCheckError::TypeMismatch));
    let g = def(
        "g",
        vec!["Bool", "Int"],
        vec!["Int", "Bool"],
        vec![
            branch(vec![all("x"), all("y")], vec![word("y"), word("x")]),
            branch(vec![all("y"), all("x")], vec![word("x"), word("y")]),
        ],
    );
    assert_eq!(check(&[bool_data(), g]), Ok(()));
}

#[test]
fn quotation_cannot_reach_enclosing_stack() {
    let mut prog = int_prims();
    let quote = Expr::Quotation { inputs: vec![], quotation: vec![word("dup")] };
    prog.push(def("f", vec!["Int"], vec!["Int", "Int"], vec![branch(vec![], vec![quote, Expr::Unquote])]));
    assert_eq!(check(&prog), Err(TypeCheckError::TypeMismatch));
}

#[test]
fn quotation_output_is_what_its_body_leaves() {
    let mut prog = int_prims();
    let quote = Expr::Quotation { inputs: vec![ty("Int")], quotation: vec![word("dup")] };
    prog.push(def("f", vec!["Int"], vec!["Int", "Int"], vec![branch(vec![], vec![quote, Expr::Unquote])]));
    assert_eq!(check(&prog), Ok(()));
}

#[test]
fn quotation_value_left_on_stack() {
    let quote = Expr::Quotation { inputs: vec![ty("Int")], quotation: vec![] };
    let out = TypeExpr::Quotation { inputs: vec![ty("Int")], outputs: vec![ty("Int")] };
    let f = TopLevel::Def {
        name: s("f"),
        inputs: vec![],
        outputs: vec![out],
        branches: vec![branch(vec![], vec![quote])],
    };
    assert_eq!(check(&[f]), Ok(()));
}

#[test]
fn apply_on_non_quotation() {
    let f = def("f", vec!["Int"], vec![], vec![branch(vec![], vec![Expr::Unquote])]);
    assert_eq!(check(&[f]), Err(TypeCheckError::TypeMismatch));
}

#[test]
fn apply_with_too_few_values() {
    let mut prog = int_prims();
    let quote = Expr::Quotation { inputs: vec![ty("Int"), ty("Int")], quotation: vec![word("mul")] };
    prog.push(def("f", vec!["Int"], vec!["Int"], vec![branch(vec![], vec![quote, Expr::Unquote])]));
    assert_eq!(check(&prog), Err(TypeCheckError::TypeMismatch));
}

#[test]
fn local_quotation_is_a_value() {
    let mut prog = int_prims();
    let out = TypeExpr::Quotation { inputs: vec![ty("Int")], outputs: vec![ty("Int"), ty("Int")] };
    prog.push(TopLevel::Def {
        name: s("run"),
        inputs: vec![ty("Int"), out],
        outputs: vec![ty("Int"), ty("Int")],
        branches: vec![branch(vec![all("n"), all("q")], vec![word("n"), word("q"), Expr::Unquote])],
    });
    assert_eq!(check(&prog), Ok(()));
}

#[test]
fn final_stack_must_match_outputs_exactly() {
    let f = def("f", vec!["Int"], vec![], vec![branch(vec![], vec![])]);
    assert_eq!(check(&[f]), Err(TypeCheckError::TypeMismatch));
}

#[test]
fn type_equality_is_structural() {
    let q1 = Type::Quotation { inputs: vec![Type::Basic(s("Int"))], outputs: vec![] };
    let q2 = Type::Quotation { inputs: vec![Type::Basic(s("Int"))], outputs: vec![] };
    let f = Type::Function { inputs: vec![Type::Basic(s("Int"))], outputs: vec![] };
    let q3 = Type::Quotation { inputs: vec![Type::Basic(s("Bool"))], outputs: vec![] };
    assert!(q1 == q2);
    assert!(q1 != f);
    assert!(q1 != q3);
    assert!(q1.copied() == q1);
}

#[test]
fn cloned_type_is_equal() {
    let t = Type::Function {
        inputs: vec![Type::Quotation { inputs: vec![Type::Basic(s("Int"))], outputs: vec![Type::Basic(s("Bool"))] }],
        outputs: vec![Type::Basic(s("Int"))],
    };
    let c = t.clone();
    assert!(c == t);
    assert!(c != Type::Basic(s("Int")));
}
