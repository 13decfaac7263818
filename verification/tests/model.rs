use mono_lower::can::CanExpr;
use mono_lower::ed_model::{init_model, EdError, EdModule, Env, Expr2, MarkupNode};

#[test]
fn empty_text_gives_a_blank_root() {
    let env = Env { pool: vec![Expr2::Blank] };
    let module = EdModule::new("", env, Err(String::from("unused"))).unwrap();
    assert_eq!(module.ast_root_id, 1);
    assert_eq!(module.env.pool, vec![Expr2::Blank, Expr2::Blank]);
}

#[test]
fn parsed_text_gives_its_expression_as_root() {
    let module = EdModule::new("5", Env { pool: vec![] }, Ok(CanExpr::Int(5))).unwrap();
    assert_eq!(module.ast_root_id, 0);
    assert_eq!(module.env.pool, vec![Expr2::Node(CanExpr::Int(5))]);
}

#[test]
fn text_that_does_not_parse_gives_a_parse_error() {
    let result = EdModule::new("5 +", Env { pool: vec![] }, Err(String::from("unfinished")));
    assert_eq!(result.unwrap_err(), EdError::ParseError { syntax_err: String::from("unfinished") });
    let result = init_model("5 +", "a.roc", Env { pool: vec![] }, Err(String::from("unfinished")));
    assert_eq!(result.unwrap_err(), EdError::ParseError { syntax_err: String::from("unfinished") });
}

#[test]
fn fresh_model_of_an_empty_text() {
    let model = init_model("", "main.roc", Env { pool: vec![] }, Ok(CanExpr::Int(1))).unwrap();
    assert_eq!(model.module.env.pool, vec![Expr2::Blank]);
    assert_eq!(model.file_path, "main.roc");
    assert_eq!(model.markup_root_id, 0);
    assert_eq!(
        model.markup_node_pool.nodes,
        vec![MarkupNode::Blank { ast_node_id: 0, caret_at: Some(0), parent_id_opt: None }]
    );
    assert_eq!(model.code_lines.lines, vec![String::new()]);
    assert_eq!(model.grid_node_map.lines, vec![Vec::<usize>::new()]);
    assert_eq!(model.glyph_dim_rect_opt, None);
    assert!(model.has_focus);
    assert!(model.dirty);
    assert_eq!(model.caret_w_select_vec.len(), 1);
    assert_eq!(model.caret_w_select_vec.first(), &((0, 0), None));
}

#[test]
fn fresh_model_of_a_text() {
    let env = Env { pool: vec![Expr2::Blank, Expr2::Blank] };
    let model = init_model("12", "main.roc", env, Ok(CanExpr::Int(12))).unwrap();
    assert_eq!(model.module.ast_root_id, 2);
    assert_eq!(model.module.env.pool[2], Expr2::Node(CanExpr::Int(12)));
    assert_eq!(
        model.markup_node_pool.nodes,
        vec![MarkupNode::Text { content: String::from("12"), ast_node_id: 2, parent_id_opt: None }]
    );
    assert_eq!(model.code_lines.lines, vec![String::from("12")]);
    assert_eq!(model.grid_node_map.lines, vec![vec![0, 0]]);
    assert_eq!(model.caret_w_select_vec.len(), 1);
    assert_eq!(model.caret_w_select_vec.head, ((0, 0), None));
    assert!(model.caret_w_select_vec.tail.is_empty());
}
