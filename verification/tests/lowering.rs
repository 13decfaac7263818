use mono_lower::builtin::{resolve_builtin, LowerError};
use mono_lower::can::{CanExpr, Pattern};
use mono_lower::expr::Expr;
use mono_lower::layout::{Layout, LayoutError};
use mono_lower::lower::{
    arg_layouts, arms_of, has_dense_discriminant, layout, lower, lower_all, lower_call, lower_guarded,
    lower_in, lower_keyed, lower_typed, pattern_discriminant, pattern_guard,
};
use mono_lower::procs::{ProcKey, Procs};
use mono_lower::subs::{Content, Subs};
use mono_lower::usage::{bind, count_reads, fact, makes_fresh, Uniqueness};
use mono_lower::symbol::{Symbol, LIST_GET_UNSAFE, LIST_LEN, LIST_SET, LIST_SET_IN_PLACE};

fn sym(ident_id: u32) -> Symbol {
    Symbol { module_id: 9, ident_id }
}

fn list_of_int() -> Layout {
    Layout::List(Box::new(Layout::Int64))
}

fn lowers_to(subs: &Subs, src: &CanExpr, expected: Expr) {
    let mut procs = Procs::new();
    assert_eq!(lower(subs, src, &mut procs, None), Ok(expected));
}

#[test]
fn literals_keep_their_values() {
    let subs = Subs::new();
    lowers_to(&subs, &CanExpr::Int(-7), Expr::Int(-7));
    lowers_to(&subs, &CanExpr::Int(i64::MAX), Expr::Int(i64::MAX));
    lowers_to(&subs, &CanExpr::Float(2.25f64.to_bits()), Expr::Float(2.25f64.to_bits()));
    lowers_to(&subs, &CanExpr::Str(String::from("héllo")), Expr::Str(String::from("héllo")));
    lowers_to(&subs, &CanExpr::Str(String::new()), Expr::Str(String::new()));
    lowers_to(&subs, &CanExpr::Bool(true), Expr::Bool(true));
    lowers_to(&subs, &CanExpr::Bool(false), Expr::Bool(false));
    lowers_to(&subs, &CanExpr::Byte(255), Expr::Byte(255));
}

#[test]
fn literal_requests_no_specialization() {
    let mut procs = Procs::new();
    lower(&Subs::new(), &CanExpr::Int(5), &mut procs, None).unwrap();
    assert_eq!(procs.len(), 0);
}

#[test]
fn variable_lowers_to_load() {
    lowers_to(&Subs::new(), &CanExpr::Var(sym(3)), Expr::Load(sym(3)));
}

#[test]
fn let_lowers_to_store() {
    let mut subs = Subs::new();
    let string = subs.fresh(Content::Str);
    let src = CanExpr::Let {
        symbol: sym(1),
        var: string,
        value: Box::new(CanExpr::Str(String::from("a"))),
        body: Box::new(CanExpr::Var(sym(1))),
    };
    lowers_to(
        &subs,
        &src,
        Expr::Store(
            vec![(sym(1), Layout::Str, Expr::Str(String::from("a")))],
            Box::new(Expr::Load(sym(1))),
        ),
    );
}

#[test]
fn list_lowers_to_array() {
    let mut subs = Subs::new();
    let byte = subs.fresh(Content::Byte);
    let src = CanExpr::List { elem_var: byte, elems: vec![CanExpr::Byte(1), CanExpr::Byte(2)] };
    lowers_to(
        &subs,
        &src,
        Expr::Array { elem_layout: Layout::Byte, elems: vec![Expr::Byte(1), Expr::Byte(2)] },
    );
}

#[test]
fn two_armed_conditional_lowers_to_cond() {
    let mut subs = Subs::new();
    let boolean = subs.fresh(Content::Bool);
    let int = subs.fresh(Content::Int);
    let src = CanExpr::If {
        cond_var: boolean,
        ret_var: int,
        cond: Box::new(CanExpr::Bool(true)),
        pass: Box::new(CanExpr::Int(1)),
        fail: Box::new(CanExpr::Int(2)),
    };
    lowers_to(
        &subs,
        &src,
        Expr::Cond {
            cond: Box::new(Expr::Bool(true)),
            cond_layout: Layout::Bool,
            pass: Box::new(Expr::Int(1)),
            fail: Box::new(Expr::Int(2)),
            ret_layout: Layout::Int64,
        },
    );
}

fn when_on(cond_var: usize, ret_var: usize, cond: CanExpr, patterns: Vec<Pattern>) -> CanExpr {
    let mut branches = Vec::new();
    for (i, p) in patterns.into_iter().enumerate() {
        branches.push((p, CanExpr::Int(10 + i as i64)));
    }
    CanExpr::When {
        cond_var,
        ret_var,
        cond: Box::new(cond),
        branches,
        default: Box::new(CanExpr::Int(0)),
    }
}

#[test]
fn dense_scrutinee_lowers_to_switch() {
    let mut subs = Subs::new();
    let int = subs.fresh(Content::Int);
    let src = when_on(int, int, CanExpr::Var(sym(1)), vec![Pattern::Int(3), Pattern::Int(-1), Pattern::Int(8)]);
    lowers_to(
        &subs,
        &src,
        Expr::Switch {
            cond: Box::new(Expr::Load(sym(1))),
            cond_layout: Layout::Int64,
            branches: vec![(3, Expr::Int(10)), (u64::MAX, Expr::Int(11)), (8, Expr::Int(12))],
            default_branch: Box::new(Expr::Int(0)),
            ret_layout: Layout::Int64,
        },
    );
}

#[test]
fn union_scrutinee_lowers_to_switch_on_tags() {
    let mut subs = Subs::new();
    let int = subs.fresh(Content::Int);
    let unit = subs.fresh(Content::Record { labels: vec![], fields: vec![] });
    let union = subs.fresh(Content::TagUnion(vec![unit, unit]));
    let src = when_on(union, int, CanExpr::Var(sym(1)), vec![Pattern::Tag(1)]);
    let mut procs = Procs::new();
    match lower(&subs, &src, &mut procs, None).unwrap() {
        Expr::Switch { cond_layout, branches, .. } => {
            assert_eq!(cond_layout, Layout::Union(vec![Layout::Struct(vec![]), Layout::Struct(vec![])]));
            assert_eq!(branches, vec![(1, Expr::Int(10))]);
        }
        other => panic!("{:?}", other),
    }
}

#[test]
fn other_scrutinee_lowers_to_guarded_branches() {
    let mut subs = Subs::new();
    let float = subs.fresh(Content::Float);
    let int = subs.fresh(Content::Int);
    let half = 0.5f64.to_bits();
    let src = when_on(float, int, CanExpr::Float(half), vec![Pattern::Float(half), Pattern::Float(0)]);
    lowers_to(
        &subs,
        &src,
        Expr::Branches {
            cond: Box::new(Expr::Float(half)),
            branches: vec![(Expr::Float(half), Expr::Int(10)), (Expr::Float(0), Expr::Int(11))],
            default: Box::new(Expr::Int(0)),
            ret_layout: Layout::Int64,
        },
    );
}

#[test]
fn patterns_as_discriminants_and_guards() {
    assert_eq!(pattern_discriminant(&Pattern::Int(5)), 5);
    assert_eq!(pattern_discriminant(&Pattern::Int(-2)), u64::MAX - 1);
    assert_eq!(pattern_discriminant(&Pattern::Byte(200)), 200);
    assert_eq!(pattern_discriminant(&Pattern::Bool(true)), 1);
    assert_eq!(pattern_discriminant(&Pattern::Bool(false)), 0);
    assert_eq!(pattern_discriminant(&Pattern::Tag(4)), 4);
    assert_eq!(pattern_discriminant(&Pattern::Float(77)), 77);
    assert_eq!(pattern_guard(&Pattern::Int(5)), Expr::Int(5));
    assert_eq!(pattern_guard(&Pattern::Byte(200)), Expr::Byte(200));
    assert_eq!(pattern_guard(&Pattern::Bool(true)), Expr::Bool(true));
    assert_eq!(pattern_guard(&Pattern::Tag(4)), Expr::Int(4));
    assert_eq!(pattern_guard(&Pattern::Tag(u64::MAX)), Expr::Int(-1));
    assert_eq!(pattern_guard(&Pattern::Float(77)), Expr::Float(77));
}

#[test]
fn dense_layouts() {
    assert!(has_dense_discriminant(&Layout::Int64));
    assert!(has_dense_discriminant(&Layout::Byte));
    assert!(has_dense_discriminant(&Layout::Bool));
    assert!(has_dense_discriminant(&Layout::Union(vec![])));
    assert!(!has_dense_discriminant(&Layout::Float64));
    assert!(!has_dense_discriminant(&Layout::Str));
    assert!(!has_dense_discriminant(&list_of_int()));
    assert!(!has_dense_discriminant(&Layout::Struct(vec![])));
}

#[test]
fn record_and_access_lower_with_their_layouts() {
    let mut subs = Subs::new();
    let int = subs.fresh(Content::Int);
    let string = subs.fresh(Content::Str);
    let record = subs.fresh(Content::Record { labels: vec![1, 4], fields: vec![int, string] });
    let make = || CanExpr::Record(vec![(int, CanExpr::Int(1)), (string, CanExpr::Str(String::from("b")))]);
    let made = || Expr::Struct(vec![(Expr::Int(1), Layout::Int64), (Expr::Str(String::from("b")), Layout::Str)]);
    lowers_to(&subs, &make(), made());
    let src = CanExpr::Access { record_var: record, field_var: string, label: 4, record: Box::new(make()) };
    lowers_to(
        &subs,
        &src,
        Expr::Access {
            label: 4,
            field_layout: Layout::Str,
            struct_layout: Layout::Struct(vec![Layout::Int64, Layout::Str]),
            record: Box::new(made()),
        },
    );
}

#[test]
fn tag_lowers_with_the_size_of_its_union() {
    let mut subs = Subs::new();
    let int = subs.fresh(Content::Int);
    let unit = subs.fresh(Content::Record { labels: vec![], fields: vec![] });
    let payload = subs.fresh(Content::Record { labels: vec![0], fields: vec![int] });
    let union = subs.fresh(Content::TagUnion(vec![unit, payload, unit]));
    let src = CanExpr::Tag { union_var: union, tag_id: 1, args: vec![(int, CanExpr::Int(6))] };
    let union_layout = Layout::Union(vec![
        Layout::Struct(vec![]),
        Layout::Struct(vec![Layout::Int64]),
        Layout::Struct(vec![]),
    ]);
    assert_eq!(arms_of(&union_layout), 3);
    assert_eq!(arms_of(&Layout::Int64), 1);
    lowers_to(
        &subs,
        &src,
        Expr::Tag {
            tag_layout: union_layout,
            tag_id: 1,
            union_size: 3,
            arguments: vec![(Expr::Int(6), Layout::Int64)],
        },
    );
}

#[test]
fn call_of_a_function_value_lowers_to_call_by_pointer() {
    let mut subs = Subs::new();
    let int = subs.fresh(Content::Int);
    let func = subs.fresh(Content::Func(vec![int], int));
    let src = CanExpr::CallValue {
        fn_var: func,
        func: Box::new(CanExpr::Var(sym(2))),
        args: vec![CanExpr::Int(4)],
    };
    lowers_to(
        &subs,
        &src,
        Expr::CallByPointer(
            Box::new(Expr::Load(sym(2))),
            vec![Expr::Int(4)],
            Layout::FunctionPointer(vec![Layout::Int64], Box::new(Layout::Int64)),
        ),
    );
}

fn call(symbol: Symbol, var: usize, n: i64) -> CanExpr {
    CanExpr::Call { symbol, args: vec![(var, CanExpr::Int(n))] }
}

#[test]
fn same_specialization_is_requested_once() {
    let mut subs = Subs::new();
    let int = subs.fresh(Content::Int);
    let string = subs.fresh(Content::Str);
    let src = CanExpr::List {
        elem_var: int,
        elems: vec![
            call(sym(5), int, 1),
            call(sym(5), int, 2),
            CanExpr::Call { symbol: sym(5), args: vec![(string, CanExpr::Str(String::from("s")))] },
            call(sym(6), int, 3),
        ],
    };
    let mut procs = Procs::new();
    let lowered = lower(&subs, &src, &mut procs, None).unwrap();
    assert_eq!(procs.len(), 3);
    let key = ProcKey { symbol: sym(5), args: vec![Layout::Int64] };
    assert_eq!(procs.get(&key), Some(&None));
    assert!(procs.contains(&ProcKey { symbol: sym(5), args: vec![Layout::Str] }));
    assert!(procs.contains(&ProcKey { symbol: sym(6), args: vec![Layout::Int64] }));
    match lowered {
        Expr::Array { elems, .. } => {
            assert_eq!(elems[0], Expr::CallByName(sym(5), vec![(Expr::Int(1), Layout::Int64)]));
            assert_eq!(elems[1], Expr::CallByName(sym(5), vec![(Expr::Int(2), Layout::Int64)]));
        }
        other => panic!("{:?}", other),
    }
}

#[test]
fn entries_that_were_there_stay() {
    let mut subs = Subs::new();
    let int = subs.fresh(Content::Int);
    let mut procs = Procs::new();
    procs.insert_if_absent(ProcKey { symbol: sym(1), args: vec![] }, None);
    lower(&subs, &call(sym(5), int, 1), &mut procs, None).unwrap();
    lower(&subs, &call(sym(5), int, 1), &mut procs, None).unwrap();
    assert_eq!(procs.len(), 2);
    assert!(procs.contains(&ProcKey { symbol: sym(1), args: vec![] }));
}

#[test]
fn tail_call_of_the_own_procedure_is_a_jump() {
    let mut subs = Subs::new();
    let int = subs.fresh(Content::Int);
    let boolean = subs.fresh(Content::Bool);
    let own = ProcKey { symbol: sym(5), args: vec![Layout::Int64] };
    let body = CanExpr::If {
        cond_var: boolean,
        ret_var: int,
        cond: Box::new(CanExpr::Call { symbol: sym(5), args: vec![(int, CanExpr::Int(0))] }),
        pass: Box::new(call(sym(5), int, 1)),
        fail: Box::new(CanExpr::List { elem_var: int, elems: vec![call(sym(5), int, 2)] }),
    };
    let mut procs = Procs::new();
    match lower(&subs, &body, &mut procs, Some(&own)).unwrap() {
        Expr::Cond { cond, pass, fail, .. } => {
            assert_eq!(*cond, Expr::CallByName(sym(5), vec![(Expr::Int(0), Layout::Int64)]));
            assert_eq!(*pass, Expr::Jump(sym(5), vec![(Expr::Int(1), Layout::Int64)]));
            assert_eq!(
                *fail,
                Expr::Array {
                    elem_layout: Layout::Int64,
                    elems: vec![Expr::CallByName(sym(5), vec![(Expr::Int(2), Layout::Int64)])],
                }
            );
        }
        other => panic!("{:?}", other),
    }
    assert_eq!(procs.len(), 1);
}

#[test]
fn tail_call_with_other_layouts_is_no_jump() {
    let mut subs = Subs::new();
    let int = subs.fresh(Content::Int);
    let own = ProcKey { symbol: sym(5), args: vec![Layout::Str] };
    let mut procs = Procs::new();
    assert_eq!(
        lower(&subs, &call(sym(5), int, 1), &mut procs, Some(&own)),
        Ok(Expr::CallByName(sym(5), vec![(Expr::Int(1), Layout::Int64)]))
    );
    assert_eq!(
        lower_call(sym(5), vec![(Expr::Str(String::new()), Layout::Str)], Uniqueness::Shared, &mut procs, Some(&own)),
        Ok(Expr::Jump(sym(5), vec![(Expr::Str(String::new()), Layout::Str)]))
    );
    assert_eq!(procs.len(), 1);
}

#[test]
fn deferred_error_does_not_stop_its_siblings() {
    let mut subs = Subs::new();
    let int = subs.fresh(Content::Int);
    let src = CanExpr::List {
        elem_var: int,
        elems: vec![
            CanExpr::Int(1),
            CanExpr::RuntimeError(String::from("unbound name")),
            call(sym(5), int, 3),
        ],
    };
    let mut procs = Procs::new();
    assert_eq!(
        lower(&subs, &src, &mut procs, None),
        Ok(Expr::Array {
            elem_layout: Layout::Int64,
            elems: vec![
                Expr::Int(1),
                Expr::RuntimeError(String::from("unbound name")),
                Expr::CallByName(sym(5), vec![(Expr::Int(3), Layout::Int64)]),
            ],
        })
    );
    assert_eq!(procs.len(), 1);
}

#[test]
fn unresolved_type_stops_lowering() {
    let mut subs = Subs::new();
    let flex = subs.fresh(Content::Flex);
    let src = CanExpr::List { elem_var: flex, elems: vec![] };
    let mut procs = Procs::new();
    assert_eq!(
        lower(&subs, &src, &mut procs, None),
        Err(LowerError::Layout(LayoutError::Unresolved(flex)))
    );
    assert_eq!(layout(&subs, 8), Err(LowerError::Layout(LayoutError::Unresolved(8))));
    assert_eq!(layout(&subs, flex), Err(LowerError::Layout(LayoutError::Unresolved(flex))));
}

#[test]
fn first_error_in_order_is_reported() {
    let mut subs = Subs::new();
    let int = subs.fresh(Content::Int);
    let flex = subs.fresh(Content::Flex);
    let bad_call = CanExpr::Call { symbol: Symbol::list(LIST_LEN), args: vec![(int, CanExpr::Int(1))] };
    let mut procs = Procs::new();
    assert_eq!(
        lower_typed(&subs, &vec![(int, CanExpr::Int(1)), (flex, CanExpr::Int(2)), (int, bad_call)], &mut procs, &vec![]),
        Err(LowerError::Layout(LayoutError::Unresolved(flex)))
    );
    let bad_call = CanExpr::Call { symbol: Symbol::list(LIST_LEN), args: vec![(int, CanExpr::Int(1))] };
    assert_eq!(
        lower_all(&subs, &vec![CanExpr::Int(1), bad_call, CanExpr::List { elem_var: flex, elems: vec![] }], &mut procs, &vec![]),
        Err(LowerError::UnknownBuiltin(Symbol::list(LIST_LEN)))
    );
    let arms = vec![(Pattern::Int(1), CanExpr::List { elem_var: flex, elems: vec![] })];
    assert_eq!(
        lower_keyed(&subs, &arms, &mut procs, None, &vec![]),
        Err(LowerError::Layout(LayoutError::Unresolved(flex)))
    );
    assert_eq!(
        lower_guarded(&subs, &arms, &mut procs, None, &vec![]),
        Err(LowerError::Layout(LayoutError::Unresolved(flex)))
    );
}

#[test]
fn arms_are_lowered_in_order() {
    let subs = Subs::new();
    let mut procs = Procs::new();
    let arms = vec![(Pattern::Byte(7), CanExpr::Int(1)), (Pattern::Bool(true), CanExpr::Int(2))];
    assert_eq!(lower_keyed(&subs, &arms, &mut procs, None, &vec![]), Ok(vec![(7, Expr::Int(1)), (1, Expr::Int(2))]));
    assert_eq!(
        lower_guarded(&subs, &arms, &mut procs, None, &vec![]),
        Ok(vec![(Expr::Byte(7), Expr::Int(1)), (Expr::Bool(true), Expr::Int(2))])
    );
    assert_eq!(lower_all(&subs, &vec![], &mut procs, &vec![]), Ok(vec![]));
}

fn set_args(list: Layout, elem: Layout) -> Vec<(Expr, Layout)> {
    vec![(Expr::Load(sym(1)), list), (Expr::Int(0), Layout::Int64), (Expr::Load(sym(2)), elem)]
}

#[test]
fn update_is_in_place_only_where_the_list_is_unique() {
    let args = set_args(list_of_int(), Layout::Int64);
    assert_eq!(
        resolve_builtin(Symbol::list(LIST_SET), &args, Uniqueness::Unique),
        Ok(Symbol::list(LIST_SET_IN_PLACE))
    );
    assert_eq!(
        resolve_builtin(Symbol::list(LIST_SET), &args, Uniqueness::Shared),
        Ok(Symbol::list(LIST_SET))
    );
    assert_eq!(
        resolve_builtin(Symbol::list(LIST_SET_IN_PLACE), &args, Uniqueness::Shared),
        Ok(Symbol::list(LIST_SET_IN_PLACE))
    );
}

#[test]
fn read_and_length_ignore_uniqueness() {
    let read = vec![(Expr::Load(sym(1)), list_of_int()), (Expr::Int(0), Layout::Int64)];
    let len = vec![(Expr::Load(sym(1)), Layout::EmptyList)];
    for uniq in [Uniqueness::Unique, Uniqueness::Shared] {
        assert_eq!(
            resolve_builtin(Symbol::list(LIST_GET_UNSAFE), &read, uniq),
            Ok(Symbol::list(LIST_GET_UNSAFE))
        );
        assert_eq!(resolve_builtin(Symbol::list(LIST_LEN), &len, uniq), Ok(Symbol::list(LIST_LEN)));
    }
}

#[test]
fn builtin_call_that_fits_no_variant_is_unknown() {
    let unknown = |op: Symbol, args: Vec<(Expr, Layout)>| {
        assert_eq!(resolve_builtin(op, &args, Uniqueness::Unique), Err(LowerError::UnknownBuiltin(op)));
    };
    unknown(Symbol::list(LIST_SET), set_args(list_of_int(), Layout::Str));
    unknown(Symbol::list(LIST_SET), set_args(Layout::EmptyList, Layout::Int64));
    unknown(Symbol::list(LIST_SET), vec![]);
    unknown(Symbol::list(LIST_SET_IN_PLACE), set_args(Layout::Str, Layout::Int64));
    unknown(Symbol::list(LIST_LEN), vec![(Expr::Int(1), Layout::Int64)]);
    unknown(Symbol::list(LIST_LEN), vec![]);
    unknown(
        Symbol::list(LIST_GET_UNSAFE),
        vec![(Expr::Load(sym(1)), list_of_int()), (Expr::Byte(0), Layout::Byte)],
    );
    unknown(Symbol::list(LIST_GET_UNSAFE), vec![(Expr::Load(sym(1)), list_of_int())]);
    unknown(Symbol::list(99), set_args(list_of_int(), Layout::Int64));
}

#[test]
fn unknown_builtin_stops_lowering() {
    let mut subs = Subs::new();
    let int = subs.fresh(Content::Int);
    let src = CanExpr::Call { symbol: Symbol::list(LIST_GET_UNSAFE), args: vec![(int, CanExpr::Int(1))] };
    let mut procs = Procs::new();
    assert_eq!(
        lower(&subs, &src, &mut procs, None),
        Err(LowerError::UnknownBuiltin(Symbol::list(LIST_GET_UNSAFE)))
    );
    assert_eq!(procs.len(), 0);
}

#[test]
fn layouts_of_typed_arguments() {
    let args = set_args(list_of_int(), Layout::Int64);
    assert_eq!(arg_layouts(&args), vec![list_of_int(), Layout::Int64, Layout::Int64]);
    assert_eq!(arg_layouts(&vec![]), Vec::<Layout>::new());
}

fn int_list(elems: Vec<i64>, int: usize) -> CanExpr {
    CanExpr::List { elem_var: int, elems: elems.into_iter().map(CanExpr::Int).collect() }
}

fn set(list: CanExpr, list_var: usize, int: usize) -> CanExpr {
    CanExpr::Call {
        symbol: Symbol::list(LIST_SET),
        args: vec![(list_var, list), (int, CanExpr::Int(0)), (int, CanExpr::Int(5))],
    }
}

fn called(expr: &Expr) -> Symbol {
    match expr {
        Expr::CallByName(symbol, _) => *symbol,
        Expr::Store(_, body) => called(body),
        other => panic!("{:?}", other),
    }
}

#[test]
fn binding_read_once_is_updated_in_place() {
    let mut subs = Subs::new();
    let int = subs.fresh(Content::Int);
    let list = subs.fresh(Content::List(int));
    // xs = [ 1, 2 ]
    // List.set xs 0 5
    let src = CanExpr::Let {
        symbol: sym(1),
        var: list,
        value: Box::new(int_list(vec![1, 2], int)),
        body: Box::new(set(CanExpr::Var(sym(1)), list, int)),
    };
    let mut procs = Procs::new();
    let lowered = lower(&subs, &src, &mut procs, None).unwrap();
    assert_eq!(called(&lowered), Symbol::list(LIST_SET_IN_PLACE));
}

#[test]
fn binding_read_again_is_not_updated_in_place() {
    let mut subs = Subs::new();
    let int = subs.fresh(Content::Int);
    let list = subs.fresh(Content::List(int));
    // xs = [ 1, 2 ]
    // ys = List.set xs 0 5
    // List.len xs
    let src = CanExpr::Let {
        symbol: sym(1),
        var: list,
        value: Box::new(int_list(vec![1, 2], int)),
        body: Box::new(CanExpr::Let {
            symbol: sym(2),
            var: list,
            value: Box::new(set(CanExpr::Var(sym(1)), list, int)),
            body: Box::new(CanExpr::Call {
                symbol: Symbol::list(LIST_LEN),
                args: vec![(list, CanExpr::Var(sym(1)))],
            }),
        }),
    };
    let mut procs = Procs::new();
    match lower(&subs, &src, &mut procs, None).unwrap() {
        Expr::Store(_, body) => match *body {
            Expr::Store(bindings, rest) => {
                assert_eq!(called(&bindings[0].2), Symbol::list(LIST_SET));
                assert_eq!(called(&rest), Symbol::list(LIST_LEN));
            }
            other => panic!("{:?}", other),
        },
        other => panic!("{:?}", other),
    }
}

#[test]
fn binding_of_a_value_that_is_not_fresh_is_shared() {
    let mut subs = Subs::new();
    let int = subs.fresh(Content::Int);
    let list = subs.fresh(Content::List(int));
    // ys = xs
    // List.set ys 0 5
    let src = CanExpr::Let {
        symbol: sym(2),
        var: list,
        value: Box::new(CanExpr::Var(sym(1))),
        body: Box::new(set(CanExpr::Var(sym(2)), list, int)),
    };
    let mut procs = Procs::new();
    assert_eq!(called(&lower(&subs, &src, &mut procs, None).unwrap()), Symbol::list(LIST_SET));
    // a parameter, bound by no let
    let bare = set(CanExpr::Var(sym(1)), list, int);
    assert_eq!(called(&lower(&subs, &bare, &mut procs, None).unwrap()), Symbol::list(LIST_SET));
    assert_eq!(
        called(&lower_in(&subs, &bare, &mut procs, None, &vec![sym(1)]).unwrap()),
        Symbol::list(LIST_SET_IN_PLACE)
    );
}

#[test]
fn result_of_an_update_is_fresh() {
    let mut subs = Subs::new();
    let int = subs.fresh(Content::Int);
    let list = subs.fresh(Content::List(int));
    // List.set (List.set xs 0 5) 0 5
    let src = set(set(CanExpr::Var(sym(1)), list, int), list, int);
    let mut procs = Procs::new();
    match lower(&subs, &src, &mut procs, None).unwrap() {
        Expr::CallByName(outer, args) => {
            assert_eq!(outer, Symbol::list(LIST_SET_IN_PLACE));
            assert_eq!(called(&args[0].0), Symbol::list(LIST_SET));
        }
        other => panic!("{:?}", other),
    }
}

#[test]
fn reads_are_counted_up_to_two() {
    let x = CanExpr::Var(sym(1));
    assert_eq!(count_reads(&x, sym(1)), 1);
    assert_eq!(count_reads(&x, sym(2)), 0);
    assert_eq!(count_reads(&CanExpr::Int(1), sym(1)), 0);
    let pair = CanExpr::Record(vec![(0, CanExpr::Var(sym(1))), (0, CanExpr::Var(sym(2)))]);
    assert_eq!(count_reads(&pair, sym(1)), 1);
    let many = CanExpr::List {
        elem_var: 0,
        elems: vec![CanExpr::Var(sym(1)), CanExpr::Var(sym(1)), CanExpr::Var(sym(1))],
    };
    assert_eq!(count_reads(&many, sym(1)), 2);
    let branching = CanExpr::When {
        cond_var: 0,
        ret_var: 0,
        cond: Box::new(CanExpr::Var(sym(3))),
        branches: vec![(Pattern::Int(1), CanExpr::Var(sym(1)))],
        default: Box::new(CanExpr::If {
            cond_var: 0,
            ret_var: 0,
            cond: Box::new(CanExpr::Bool(true)),
            pass: Box::new(CanExpr::Var(sym(1))),
            fail: Box::new(CanExpr::Tag { union_var: 0, tag_id: 0, args: vec![(0, CanExpr::Var(sym(3)))] }),
        }),
    };
    assert_eq!(count_reads(&branching, sym(1)), 2);
    assert_eq!(count_reads(&branching, sym(3)), 2);
    assert_eq!(count_reads(&branching, sym(4)), 0);
    let nested = CanExpr::Let {
        symbol: sym(5),
        var: 0,
        value: Box::new(CanExpr::Access { record_var: 0, field_var: 0, label: 1, record: Box::new(CanExpr::Var(sym(1))) }),
        body: Box::new(CanExpr::CallValue { fn_var: 0, func: Box::new(CanExpr::Var(sym(6))), args: vec![CanExpr::Var(sym(5))] }),
    };
    assert_eq!(count_reads(&nested, sym(1)), 1);
    assert_eq!(count_reads(&nested, sym(5)), 1);
    assert_eq!(count_reads(&nested, sym(6)), 1);
}

#[test]
fn fresh_values_and_unique_bindings() {
    let list = int_list(vec![1], 0);
    let update = set(CanExpr::Var(sym(1)), 0, 0);
    let read = CanExpr::Call { symbol: Symbol::list(LIST_GET_UNSAFE), args: vec![] };
    assert!(makes_fresh(&list));
    assert!(makes_fresh(&update));
    assert!(!makes_fresh(&read));
    assert!(!makes_fresh(&CanExpr::Var(sym(1))));
    assert!(!makes_fresh(&CanExpr::Str(String::new())));

    let once = CanExpr::Var(sym(1));
    let twice = CanExpr::List { elem_var: 0, elems: vec![CanExpr::Var(sym(1)), CanExpr::Var(sym(1))] };
    assert_eq!(bind(&vec![sym(7)], sym(1), &list, &once), vec![sym(7), sym(1)]);
    assert_eq!(bind(&vec![sym(7)], sym(1), &list, &CanExpr::Int(0)), vec![sym(7), sym(1)]);
    assert_eq!(bind(&vec![sym(7)], sym(1), &list, &twice), vec![sym(7)]);
    assert_eq!(bind(&vec![sym(7)], sym(1), &read, &once), vec![sym(7)]);

    assert_eq!(fact(&vec![], &list), Uniqueness::Unique);
    assert_eq!(fact(&vec![], &update), Uniqueness::Unique);
    assert_eq!(fact(&vec![], &once), Uniqueness::Shared);
    assert_eq!(fact(&vec![sym(2), sym(1)], &once), Uniqueness::Unique);
    assert_eq!(fact(&vec![sym(2)], &once), Uniqueness::Shared);
    assert_eq!(fact(&vec![sym(1)], &read), Uniqueness::Shared);
}
