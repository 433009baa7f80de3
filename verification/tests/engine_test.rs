use deer::engine::evaluator::{Comparison, Evaluator, Expr, MathFunction, Value};
use deer::engine::node_exec::{
    assign_aliased, call_target, define_statement, definition_statements, output_form,
    pick_defined, result_target, set_var, subdiagram_files, ActionKind, OutputForm,
};
use deer::engine::runner::{ExecutionState, History, Runner, SinglePlan, MAX_LOGS};
use deer::engine::table::Table;
use deer::model::connector::BranchCondition;
use deer::model::diagram::Diagram;
use deer::model::node::{Layout, Node, NodeType};

fn layout() -> Layout {
    Layout::new("100", "100", "100", "40")
}

/// START (declaring `a, b`) -> OUTPUT -> STOP.
fn three_node_diagram() -> Diagram {
    let mut d = Diagram::new("t");
    let s = d.add_node(NodeType::Start, layout());
    let o = d.add_node(NodeType::Output, layout());
    let e = d.add_node(NodeType::Stop, layout());
    d.get_node_mut(&s).unwrap().expr1 = "a, b ,".to_string();
    d.add_connector(&s, &o, BranchCondition::Default);
    d.add_connector(&o, &e, BranchCondition::Default);
    d
}

#[test]
fn parse_expr_reads_operators_in_order() {
    match Evaluator::parse_expr("a + 10") {
        Expr::Add(l, r) => {
            assert!(matches!(*l, Expr::Name(ref n) if n == "a"));
            assert!(matches!(*r, Expr::Number(ref n) if n == "10"));
        }
        _ => panic!("expected a sum"),
    }
    assert!(matches!(Evaluator::parse_expr("  -5 "), Expr::Number(ref n) if n == "-5"));
    assert!(matches!(Evaluator::parse_expr("-x"), Expr::Name(ref n) if n == "-x"));
    assert!(matches!(Evaluator::parse_expr("x - y"), Expr::Sub(_, _)));
    assert!(matches!(Evaluator::parse_expr("x * y"), Expr::Mul(_, _)));
    assert!(matches!(Evaluator::parse_expr("x / y"), Expr::Div(_, _)));
    assert!(matches!(Evaluator::parse_expr("'hi'"), Expr::Text(ref t) if t == "hi"));
    assert!(matches!(Evaluator::parse_expr("\"a b\""), Expr::Text(ref t) if t == "a b"));
    assert!(matches!(Evaluator::parse_expr("TRUE"), Expr::Bool(true)));
    assert!(matches!(Evaluator::parse_expr("False"), Expr::Bool(false)));
    assert!(matches!(Evaluator::parse_expr("   "), Expr::Nil));
    assert!(matches!(Evaluator::parse_expr("1e5"), Expr::Number(_)));
    assert!(matches!(Evaluator::parse_expr("inf"), Expr::Number(_)));
    match Evaluator::parse_expr("COS( x )") {
        Expr::Call(f, a) => {
            assert_eq!(f, "COS");
            assert!(matches!(*a, Expr::Name(ref n) if n == "x"));
        }
        _ => panic!("expected a call"),
    }
    // an unknown function name is read as a name
    assert!(matches!(Evaluator::parse_expr("foo(x)"), Expr::Name(ref n) if n == "foo(x)"));
}

#[test]
fn parse_expr_splits_at_first_operator() {
    // "1-2-3" splits at the first '-': 1 and "2-3"
    match Evaluator::parse_expr("1-2-3") {
        Expr::Sub(l, r) => {
            assert!(matches!(*l, Expr::Number(ref n) if n == "1"));
            assert!(matches!(*r, Expr::Sub(_, _)));
        }
        _ => panic!("expected a difference"),
    }
    // '+' binds before '*'
    match Evaluator::parse_expr("2*3+4") {
        Expr::Add(l, _) => assert!(matches!(*l, Expr::Mul(_, _))),
        _ => panic!("expected a sum"),
    }
}

#[test]
fn names_resolve_exactly_then_ignoring_case_then_by_base() {
    let mut vars: Table<Value<f64>> = Table::new();
    assert_eq!(Evaluator::name_value("x", &vars), Value::String("x".to_string()));
    assert_eq!(
        Evaluator::name_value("my_custom_var", &vars),
        Value::String("my_custom_var".to_string())
    );
    vars.insert("x", Value::String("Hello User".to_string()));
    assert_eq!(Evaluator::name_value("x", &vars), Value::String("Hello User".to_string()));
    assert_eq!(Evaluator::name_value("X", &vars), Value::String("Hello User".to_string()));
    assert_eq!(Evaluator::name_value("x.prop", &vars), Value::String("Hello User".to_string()));
    vars.insert("X", Value::Number(2.0));
    assert_eq!(Evaluator::name_value("X", &vars), Value::Number(2.0));
}

#[test]
fn operators_and_functions_are_named_in_any_case() {
    assert_eq!(Evaluator::comparison_of(" > "), Comparison::Greater);
    assert_eq!(Evaluator::comparison_of("if_less"), Comparison::Less);
    assert_eq!(Evaluator::comparison_of("IF_GREATER_EQUAL"), Comparison::GreaterEqual);
    assert_eq!(Evaluator::comparison_of("<="), Comparison::LessEqual);
    assert_eq!(Evaluator::comparison_of("=="), Comparison::Equal);
    assert_eq!(Evaluator::comparison_of("whatever"), Comparison::Equal);
    assert_eq!(Evaluator::function_of("COS"), MathFunction::Cos);
    assert_eq!(Evaluator::function_of(" Ln "), MathFunction::Ln);
    assert_eq!(Evaluator::function_of("Fact"), MathFunction::Factorial);
    assert_eq!(Evaluator::function_of("length"), MathFunction::Length);
    assert_eq!(Evaluator::function_of("nope"), MathFunction::Identity);
    assert!(Evaluator::is_builtin_function("SQRT"));
    assert!(Evaluator::is_builtin_function("Factorial"));
    assert!(!Evaluator::is_builtin_function("cos"));
    assert!(!Evaluator::is_builtin_function(" abs"));
}

#[test]
fn aliases_are_set_with_a_value() {
    let mut vars: Table<Value<f64>> = Table::new();
    assign_aliased(&mut vars, "num", Value::Number(3.0));
    assert_eq!(vars.get("num"), Some(&Value::Number(3.0)));
    assert_eq!(vars.get("num.Text"), Some(&Value::Number(3.0)));
    assert_eq!(vars.get("num.Value"), Some(&Value::Number(3.0)));
    assign_aliased(&mut vars, "obj.prop", Value::Bool(true));
    assert_eq!(vars.get("obj.prop"), Some(&Value::Bool(true)));
    assert_eq!(vars.get("obj"), Some(&Value::Bool(true)));
    assert_eq!(vars.get("obj.prop.Text"), None);
    let before = vars.len();
    set_var(&mut vars, "", Value::Nil);
    assert_eq!(vars.len(), before);
    define_statement(&mut vars, "y", Value::Number(1.0));
    assert_eq!(vars.get("y.Value"), Some(&Value::Number(1.0)));
    assert_eq!(vars.get("y.Text"), None);
}

#[test]
fn definition_statements_split_at_commas_and_first_equals() {
    let st = definition_statements(" x = 0.5, y = 1.0 , cx = cos(x), junk ").unwrap();
    assert_eq!(
        st,
        vec![
            ("x".to_string(), "0.5".to_string()),
            ("y".to_string(), "1.0".to_string()),
            ("cx".to_string(), "cos(x)".to_string()),
        ]
    );
    assert_eq!(definition_statements("a=b=c").unwrap(), vec![("a".to_string(), "b=c".to_string())]);
    assert!(definition_statements("x").is_none());
    assert_eq!(pick_defined(Value::<f64>::Nil, Value::Number(1.0)), Value::Number(1.0));
    assert_eq!(pick_defined(Value::Number(2.0), Value::Number(1.0)), Value::Number(2.0));
    assert_eq!(pick_defined::<f64>(Value::Nil, Value::Nil), Value::Nil);
}

#[test]
fn targets_and_actions_are_chosen_by_the_node() {
    let mut n = Node::new("id1", NodeType::Add, layout());
    n.target_var = String::new();
    n.expr1 = "x".to_string();
    n.expr2 = "arg".to_string();
    assert_eq!(result_target(&n), "x");
    assert_eq!(call_target(&n), "arg");
    n.target_var = "t".to_string();
    assert_eq!(result_target(&n), "t");
    assert_eq!(call_target(&n), "t");
    assert_eq!(ActionKind::of_label(" join "), ActionKind::Join);
    assert_eq!(ActionKind::of_label("Comp"), ActionKind::Compare);
    assert_eq!(ActionKind::of_label("ACTION"), ActionKind::Assign);
}

#[test]
fn user_input_reads_quotes_numbers_and_booleans() {
    assert_eq!(Runner::<f64>::parse_user_input("  "), Value::String(String::new()));
    assert_eq!(Runner::<f64>::parse_user_input(" 42 "), Value::Number("42".to_string()));
    assert_eq!(Runner::<f64>::parse_user_input("-1.5e3"), Value::Number("-1.5e3".to_string()));
    assert_eq!(Runner::<f64>::parse_user_input("'hi'"), Value::String("hi".to_string()));
    assert_eq!(Runner::<f64>::parse_user_input("\"\""), Value::String(String::new()));
    assert_eq!(Runner::<f64>::parse_user_input("TRUE"), Value::Bool(true));
    assert_eq!(Runner::<f64>::parse_user_input("false"), Value::Bool(false));
    assert_eq!(Runner::<f64>::parse_user_input("exit"), Value::String("exit".to_string()));
    assert_eq!(Runner::<f64>::parse_user_input("1.2.3"), Value::String("1.2.3".to_string()));
    // every text read as a number is one that f64 parses
    for t in ["42", "-1.5e3", "+.5", "5.", "inf", "-Infinity", "NaN", "1E+7"] {
        match Runner::<f64>::parse_user_input(t) {
            Value::Number(s) => assert!(s.parse::<f64>().is_ok(), "{}", s),
            other => panic!("{:?}", other),
        }
    }
    for t in [".", "e5", "1e", "--1", "0x10", "1_000"] {
        assert!(!matches!(Runner::<f64>::parse_user_input(t), Value::Number(_)), "{}", t);
        assert!(t.parse::<f64>().is_err());
    }
}

#[test]
fn submitted_input_is_read_back() {
    let mut runner: Runner<f64> = Runner::new();
    runner.submit_input(Value::String("exit".to_string()), "exit", "num", "next_id");
    assert_eq!(runner.variables.get("num"), Some(&Value::String("exit".to_string())));
    assert_eq!(Evaluator::name_value("num", &runner.variables), Value::String("exit".to_string()));
    assert_eq!(runner.state, ExecutionState::Running);
    assert_eq!(runner.current_node_id.as_deref(), Some("next_id"));
    assert_eq!(runner.logs.last().unwrap(), "[Giriş] `num` = exit");
    runner.step_mode = true;
    runner.input_text = "typed".to_string();
    runner.submit_input(Value::Number(5.0), "5", "n", "id9");
    assert_eq!(runner.state, ExecutionState::Paused);
    assert!(runner.input_text.is_empty());
}

#[test]
fn log_keeps_the_newest_lines() {
    let mut runner: Runner<f64> = Runner::new();
    for i in 0..(MAX_LOGS + 5) {
        runner.push_log(format!("line {}", i));
    }
    assert_eq!(runner.logs.len(), MAX_LOGS);
    assert_eq!(runner.logs[0], "line 5");
    assert_eq!(runner.logs[MAX_LOGS - 1], format!("line {}", MAX_LOGS + 4));
}

#[test]
fn start_without_start_node_is_an_error() {
    let mut runner: Runner<f64> = Runner::new();
    let d = Diagram::new("empty");
    runner.start(&d, 0.0);
    assert_eq!(runner.state, ExecutionState::Error("No START node found in diagram!".to_string()));
    assert_eq!(runner.logs, vec!["[Hata] BAŞLA düğümü bulunamadı".to_string()]);
    assert_eq!(runner.current_node_id, None);
}

#[test]
fn start_declares_names_and_runs_from_start() {
    let mut runner: Runner<f64> = Runner::new();
    runner.delay_ms = 300;
    runner.push_log("old".to_string());
    let d = three_node_diagram();
    runner.start(&d, 0.0);
    assert_eq!(runner.state, ExecutionState::Running);
    assert_eq!(runner.current_node_id.as_deref(), Some("id1"));
    assert_eq!(runner.variables.len(), 2);
    assert_eq!(runner.variables.get("a"), Some(&Value::Number(0.0)));
    assert_eq!(runner.variables.get("b"), Some(&Value::Number(0.0)));
    assert_eq!(runner.logs, vec!["[Başlatıldı] Düğüm id1 üzerinde çalışmaya başlandı".to_string()]);
    assert_eq!(runner.delay_ms, 300);
    assert_eq!(runner.node_map.len(), 3);
    assert_eq!(runner.node_map.get("id2").unwrap().node_type, NodeType::Output);
}

#[test]
fn steps_walk_the_diagram_to_its_end() {
    let mut runner: Runner<f64> = Runner::new();
    let d = three_node_diagram();
    // an idle interpreter without a current node starts instead of stepping
    assert!(runner.begin_step(&d, 0.0).is_none());
    assert_eq!(runner.state, ExecutionState::Running);
    let n = runner.begin_step(&d, 0.0).unwrap();
    assert_eq!(n.id, "id1");
    assert_eq!(runner.step_count, 1);
    runner.advance(n.node_type, BranchCondition::Default);
    assert_eq!(runner.current_node_id.as_deref(), Some("id2"));
    // the numbers held by variables were recorded under step 1
    assert_eq!(runner.variable_history.get("a"), Some(&vec![(1usize, 0.0f64)]));
    let n = runner.begin_step(&d, 0.0).unwrap();
    assert_eq!(n.node_type, NodeType::Output);
    runner.record_output(7.0);
    assert_eq!(runner.output_history, vec![(2usize, 7.0f64)]);
    runner.advance(n.node_type, BranchCondition::Default);
    let n = runner.begin_step(&d, 0.0).unwrap();
    assert_eq!(n.node_type, NodeType::Stop);
    // `b` was declared by the start node, so it is what a stop would return
    assert_eq!(runner.return_value(), Value::Number(0.0));
    runner.finish_stop("0");
    assert_eq!(runner.state, ExecutionState::Finished);
    assert_eq!(runner.current_node_id, None);
    assert_eq!(
        runner.logs.last().unwrap(),
        "[Tamamlandı] Diyagram çalışması başarıyla tamamlandı."
    );
    // a finished interpreter does not step
    assert!(runner.begin_step(&d, 0.0).is_none());
    assert_eq!(runner.step_count, 3);
}

#[test]
fn a_missing_current_node_is_an_error() {
    let mut runner: Runner<f64> = Runner::new();
    let d = three_node_diagram();
    runner.start(&d, 0.0);
    runner.current_node_id = Some("id42".to_string());
    assert!(runner.begin_step(&d, 0.0).is_none());
    assert_eq!(runner.state, ExecutionState::Error("Node id42 not found".to_string()));
}

#[test]
fn a_branch_without_a_next_node_finishes() {
    let mut runner: Runner<f64> = Runner::new();
    let mut d = Diagram::new("t");
    let s = d.add_node(NodeType::Start, layout());
    let c = d.add_node(NodeType::IfEqual, layout());
    let y = d.add_node(NodeType::Output, layout());
    let no = d.add_node(NodeType::Output, layout());
    d.add_connector(&s, &c, BranchCondition::Default);
    d.add_connector(&c, &y, BranchCondition::Yes);
    d.add_connector(&c, &no, BranchCondition::No);
    runner.start(&d, 0.0);
    runner.current_node_id = Some(c.clone());
    runner.advance(NodeType::IfEqual, BranchCondition::No);
    assert_eq!(runner.current_node_id.as_deref(), Some(no.as_str()));
    runner.current_node_id = Some(c.clone());
    runner.advance(NodeType::IfEqual, BranchCondition::Yes);
    assert_eq!(runner.current_node_id.as_deref(), Some(y.as_str()));
    // a node that is not a condition takes the first connector whatever was chosen
    runner.current_node_id = Some(c.clone());
    runner.advance(NodeType::Action, BranchCondition::No);
    assert_eq!(runner.current_node_id.as_deref(), Some(y.as_str()));
    runner.advance(NodeType::Output, BranchCondition::Default);
    assert_eq!(runner.state, ExecutionState::Finished);
    assert_eq!(runner.current_node_id, None);
    assert_eq!(runner.logs.last().unwrap(), "[Tamamlandı] Dal sonuna ulaşıldı.");
}

#[test]
fn input_nodes_wait_for_a_value() {
    let mut runner: Runner<f64> = Runner::new();
    let mut d = Diagram::new("t");
    let s = d.add_node(NodeType::Start, layout());
    let i = d.add_node(NodeType::Input, layout());
    let o = d.add_node(NodeType::Output, layout());
    d.add_connector(&s, &i, BranchCondition::Default);
    d.add_connector(&i, &o, BranchCondition::Default);
    {
        let n = d.get_node_mut(&i).unwrap();
        n.expr1 = String::new();
        n.expr2 = "age".to_string();
    }
    runner.start(&d, 0.0);
    runner.current_node_id = Some(i.clone());
    let node = d.get_node(&i).unwrap().clone();
    runner.await_input(&node);
    assert_eq!(
        runner.state,
        ExecutionState::WaitingForInput {
            prompt: "Enter value for age".to_string(),
            target_var: "age".to_string(),
            next_node_id: o.clone(),
        }
    );
    // a single step while waiting submits the input text
    match runner.begin_single_step(&d, 0.0) {
        SinglePlan::Submit { target_var, next_node_id } => {
            assert_eq!(target_var, "age");
            assert_eq!(next_node_id, o);
        }
        _ => panic!("expected a submission"),
    }
    assert!(runner.step_mode);
    // without an outgoing connector the run finishes
    runner.current_node_id = Some(o.clone());
    runner.await_input(&node);
    assert_eq!(runner.state, ExecutionState::Finished);
}

#[test]
fn single_steps_pause_after_each_step() {
    let mut runner: Runner<f64> = Runner::new();
    let d = three_node_diagram();
    assert!(matches!(runner.begin_single_step(&d, 0.0), SinglePlan::StepFromStart));
    assert_eq!(runner.state, ExecutionState::Running);
    assert!(runner.step_mode);
    runner.end_single_step();
    assert_eq!(runner.state, ExecutionState::Paused);
    assert!(matches!(runner.begin_single_step(&d, 0.0), SinglePlan::Step));
    assert_eq!(runner.state, ExecutionState::Running);
    let mut bad: Runner<f64> = Runner::new();
    assert!(matches!(bad.begin_single_step(&Diagram::new("x"), 0.0), SinglePlan::Nothing));
    assert!(matches!(bad.state, ExecutionState::Error(_)));
}

#[test]
fn pause_resume_and_stop() {
    let mut runner: Runner<f64> = Runner::new();
    runner.pause();
    assert_eq!(runner.state, ExecutionState::Idle);
    assert!(runner.logs.is_empty());
    runner.start(&three_node_diagram(), 0.0);
    runner.step_mode = true;
    runner.pause();
    assert_eq!(runner.state, ExecutionState::Paused);
    runner.pause();
    assert_eq!(runner.logs.len(), 2);
    runner.resume();
    assert_eq!(runner.state, ExecutionState::Running);
    assert!(!runner.step_mode);
    assert_eq!(runner.logs.last().unwrap(), "[Devam Ediyor] Çalışma devam ettirildi.");
    runner.stop();
    assert_eq!(runner.state, ExecutionState::Idle);
    assert_eq!(runner.current_node_id, None);
    assert_eq!(
        runner.logs.last().unwrap(),
        "[Durduruldu] Çalışma kullanıcı tarafından durduruldu."
    );
    runner.reset();
    assert!(runner.logs.is_empty());
    assert_eq!(runner.variables.len(), 0);
    assert_eq!(runner.delay_ms, 10);
}

#[test]
fn a_sub_diagram_call_returns_to_its_caller() {
    let mut runner: Runner<f64> = Runner::new();
    let mut main = Diagram::new("main");
    let s = main.add_node(NodeType::Start, layout());
    let f = main.add_node(NodeType::Function, layout());
    let o = main.add_node(NodeType::Output, layout());
    main.add_connector(&s, &f, BranchCondition::Default);
    main.add_connector(&f, &o, BranchCondition::Default);
    {
        let n = main.get_node_mut(&f).unwrap();
        n.expr1 = "function".to_string();
        n.expr2 = "x".to_string();
        n.target_var = "a".to_string();
    }
    let mut sub = Diagram::new("sub");
    let ss = sub.add_node(NodeType::Start, layout());
    let se = sub.add_node(NodeType::Stop, layout());
    sub.add_connector(&ss, &se, BranchCondition::Default);

    runner.start(&main, 0.0);
    runner.variables.insert("x", Value::Number(50.0));
    runner.current_node_id = Some(f.clone());
    let node = main.get_node(&f).unwrap().clone();
    assert!(runner.call_subdiagram(sub, &node, Value::Number(50.0), "50"));
    assert_eq!(runner.diagram_stack.len(), 1);
    assert_eq!(runner.current_node_id.as_deref(), Some(ss.as_str()));
    assert_eq!(runner.variables.get("PARAM"), Some(&Value::Number(50.0)));
    assert_eq!(runner.variables.get("x"), Some(&Value::Number(50.0)));
    assert_eq!(runner.variables.len(), 2);
    assert_eq!(runner.logs.last().unwrap(), "[ÇAĞRI] Alt-diyagram `function` arg: 50");
    runner.variables.insert("RETURN", Value::Number(123.0));
    assert_eq!(runner.return_value(), Value::Number(123.0));
    runner.finish_stop("123");
    assert_eq!(runner.diagram_stack.len(), 0);
    assert_eq!(runner.active_diagram.title, "main");
    assert_eq!(runner.variables.get("a"), Some(&Value::Number(123.0)));
    assert_eq!(runner.variables.get("x"), Some(&Value::Number(50.0)));
    assert_eq!(runner.variables.get("PARAM"), None);
    assert_eq!(runner.current_node_id.as_deref(), Some(o.as_str()));
    assert_eq!(runner.logs.last().unwrap(), "[Geri Dönüldü] Fonksiyon `function` -> `a` = 123");
}

#[test]
fn a_sub_diagram_without_start_is_not_entered() {
    let mut runner: Runner<f64> = Runner::new();
    let main = three_node_diagram();
    runner.start(&main, 0.0);
    let node = main.get_node("id2").unwrap().clone();
    assert!(!runner.call_subdiagram(Diagram::new("nothing"), &node, Value::Nil, ""));
    assert_eq!(runner.diagram_stack.len(), 1);
    assert_eq!(runner.active_diagram.title, "nothing");
}

#[test]
fn return_value_prefers_return_then_b_then_s() {
    let mut runner: Runner<f64> = Runner::new();
    runner.variables.insert("s", Value::Number(3.0));
    assert_eq!(runner.return_value(), Value::Number(3.0));
    runner.variables.insert("b", Value::Number(2.0));
    assert_eq!(runner.return_value(), Value::Number(2.0));
    runner.variables.insert("RETURN", Value::Number(1.0));
    assert_eq!(runner.return_value(), Value::Number(1.0));
}

#[test]
fn history_series_grow_by_name() {
    let mut h: History<f64> = History::new();
    h.record("x", 1, 0.5);
    h.record("y", 1, 2.0);
    h.record("x", 2, 1.5);
    assert_eq!(h.len(), 2);
    assert_eq!(h.get("x"), Some(&vec![(1usize, 0.5f64), (2usize, 1.5f64)]));
    assert_eq!(h.name_at(1), "y");
    assert_eq!(h.samples_at(1), &vec![(1usize, 2.0f64)]);
    assert_eq!(h.get("z"), None);
    h.clear();
    assert_eq!(h.len(), 0);
}

#[test]
fn output_nodes_write_label_and_value() {
    let mut n = Node::new("id1", NodeType::Output, layout());
    n.expr1 = "Total:".to_string();
    n.expr2 = "t".to_string();
    match output_form(&n) {
        OutputForm::Labelled { label, expr } => assert_eq!((label.as_str(), expr.as_str()), ("Total:", "t")),
        _ => panic!("expected a labelled output"),
    }
    n.expr2 = String::new();
    assert!(matches!(output_form(&n), OutputForm::Value(ref e) if e == "Total:"));
    n.expr1 = String::new();
    n.expr2 = "t".to_string();
    assert!(matches!(output_form(&n), OutputForm::Value(ref e) if e == "t"));
    n.expr2 = String::new();
    assert!(matches!(output_form(&n), OutputForm::Empty));
    assert_eq!(
        subdiagram_files("function"),
        ("function.fpp".to_string(), "example/function.fpp".to_string())
    );
}

#[test]
fn history_names_come_sorted() {
    let mut h: History<f64> = History::new();
    h.record("y", 1, 0.0);
    h.record("b", 1, 0.0);
    h.record("Z", 1, 0.0);
    h.record("y", 2, 1.0);
    assert_eq!(h.sorted_names(), vec!["Z".to_string(), "b".to_string(), "y".to_string()]);
}

#[test]
fn a_table_keeps_one_entry_per_name() {
    let mut vars: Table<Value<f64>> = Table::new();
    vars.insert("x", Value::Number(1.0));
    vars.insert("y", Value::Bool(false));
    vars.insert("x", Value::Number(2.0));
    assert_eq!(vars.len(), 2);
    assert_eq!(vars.key_at(0), "x");
    assert_eq!(vars.get("x"), Some(&Value::Number(2.0)));
    assert!(vars.contains_key("y"));
    assert!(!vars.contains_key("Y"));
    assert_eq!(vars.get_like("Y"), Some(&Value::Bool(false)));
    assert_eq!(vars.resolve("y.Text"), Some(&Value::Bool(false)));
    assert_eq!(vars.resolve("z"), None);
    vars.clear();
    assert_eq!(vars.len(), 0);
}

#[test]
fn first_single_step_reaches_an_input_dialog() {
    // START leads straight to INPUT, as in a factorial program
    let mut d = Diagram::new("t");
    let s = d.add_node(NodeType::Start, layout());
    let i = d.add_node(NodeType::Input, layout());
    let e = d.add_node(NodeType::Stop, layout());
    d.add_connector(&s, &i, BranchCondition::Default);
    d.add_connector(&i, &e, BranchCondition::Default);
    let mut runner: Runner<f64> = Runner::new();
    assert!(matches!(runner.begin_single_step(&d, 0.0), SinglePlan::StepFromStart));
    // the start node runs
    let n = runner.begin_step(&d, 0.0).unwrap();
    assert_eq!(n.node_type, NodeType::Start);
    runner.advance(n.node_type, BranchCondition::Default);
    // the run stands at the input node, which runs at once
    assert!(runner.stands_at_input());
    let n = runner.begin_step(&d, 0.0).unwrap();
    runner.await_input(&n);
    runner.end_single_step();
    assert!(matches!(runner.state, ExecutionState::WaitingForInput { .. }));
    // a single step while waiting submits the input and pauses at the next node
    runner.input_text = "5".to_string();
    match runner.begin_single_step(&d, 0.0) {
        SinglePlan::Submit { target_var, next_node_id } => {
            runner.submit_input(Value::Number(5.0), "5", &target_var, &next_node_id);
        }
        _ => panic!("expected a submission"),
    }
    assert_eq!(runner.state, ExecutionState::Paused);
    assert_eq!(runner.variables.get("x"), Some(&Value::Number(5.0)));
    assert!(!runner.stands_at_input());
}

#[test]
fn a_full_step_counter_matters_only_when_a_node_runs() {
    let mut runner: Runner<f64> = Runner::new();
    let d = three_node_diagram();
    assert!(!runner.counts_a_step());
    runner.start(&d, 0.0);
    assert!(runner.counts_a_step());
    runner.current_node_id = Some("nowhere".to_string());
    assert!(!runner.counts_a_step());
}

#[test]
fn a_running_run_is_paced_by_its_delay() {
    let d = three_node_diagram();
    let mut r: Runner<f64> = Runner::new();
    assert!(!r.auto_step_due(0, 0));
    r.start(&d, 0.0);
    assert_eq!(r.state, ExecutionState::Running);
    r.delay_ms = 0;
    assert!(r.auto_step_due(0, 0));
    assert!(r.auto_step_due(499, 15));
    assert!(!r.auto_step_due(500, 0));
    assert!(!r.auto_step_due(3, 16));
    r.delay_ms = 100;
    assert!(!r.auto_step_due(0, 99));
    assert!(r.auto_step_due(0, 100));
    assert!(!r.auto_step_due(1, 200));
    r.pause();
    assert!(!r.auto_step_due(0, 1000));
}
