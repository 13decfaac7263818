//! The model of one open module: the parsed tree, its markup, and the
//! carets over it.

use vstd::prelude::*;
use vstd::string::StrSliceExecFns;
use nonempty::NonEmpty;
use crate::can::CanExpr;

verus! {

/// The index of a node in a pool.
pub type NodeId = usize;

/// A caret: its line and column, and the markup node under it once that has
/// been looked up.
pub type CaretEntry = ((usize, usize), Option<NodeId>);

/// A node of the syntax tree that the model holds.
#[derive(Debug, PartialEq, Eq)]
pub enum Expr2 {
    /// The placeholder of a module without text.
    Blank,
    /// A parsed expression.
    Node(CanExpr),
}

/// What a module is parsed in: the pool that owns its syntax nodes.
#[derive(Debug)]
pub struct Env {
    pub pool: Vec<Expr2>,
}

impl Env {
    /// Adds a node to the pool and returns its id.
    pub fn add(&mut self, node: Expr2) -> (id: NodeId)
        ensures
            id == old(self).pool@.len(),
            final(self).pool@ == old(self).pool@.push(node),
    {
        let id = self.pool.len();
        self.pool.push(node);
        id
    }
}

/// Why a model could not be made.
#[derive(Debug, PartialEq, Eq)]
pub enum EdError {
    /// The text did not parse; the parser's report.
    ParseError { syntax_err: String },
}

/// A parsed module: its environment and the root of its syntax tree.
#[derive(Debug)]
pub struct EdModule {
    pub env: Env,
    pub ast_root_id: NodeId,
}

/// The root that a module's text gives: the blank placeholder for an empty
/// text, the parsed expression otherwise.
pub open spec fn root_of(code: Seq<char>, parsed: Result<CanExpr, String>) -> Option<Expr2> {
    if code.len() == 0 {
        Some(Expr2::Blank)
    } else {
        match parsed {
            Ok(e) => Some(Expr2::Node(e)),
            Err(_) => None,
        }
    }
}

/// Whether the text has no root: it is not empty and did not parse, and
/// `syntax_err` is the parser's report.
pub open spec fn is_parse_failure(
    code: Seq<char>,
    parsed: Result<CanExpr, String>,
    syntax_err: String,
) -> bool {
    &&& code.len() != 0
    &&& parsed matches Err(report)
    &&& syntax_err == report
}

impl EdModule {
    /// Makes the module of a text from what the parser gave for it.
    ///
    /// An empty text gives a blank root, whatever `parsed` holds. Any other
    /// text gives the parsed expression as root, or the parser's report as
    /// a `ParseError`. The root is added to the pool, after the nodes that
    /// the pool held.
    pub fn new(code_str: &str, env: Env, parsed: Result<CanExpr, String>) -> (r: Result<
        EdModule,
        EdError,
    >)
        ensures
            match r {
                Ok(m) => root_of(code_str@, parsed) matches Some(root) && m.env.pool@
                    == env.pool@.push(root) && m.ast_root_id == env.pool@.len(),
                Err(EdError::ParseError { syntax_err }) => is_parse_failure(
                    code_str@,
                    parsed,
                    syntax_err,
                ),
            },
    {
        let mut env = env;
        if !code_str.is_empty() {
            match parsed {
                Ok(expr2) => {
                    let ast_root_id = env.add(Expr2::Node(expr2));
                    Ok(EdModule { env, ast_root_id })
                },
                Err(err) => Err(EdError::ParseError { syntax_err: err }),
            }
        } else {
            let ast_root_id = env.add(Expr2::Blank);
            Ok(EdModule { env, ast_root_id })
        }
    }
}

/// A node of the markup tree that is drawn for a syntax tree.
#[derive(Debug, PartialEq, Eq)]
pub enum MarkupNode {
    /// The placeholder of an empty module; `caret_at` is the column of the caret on it.
    Blank { ast_node_id: NodeId, caret_at: Option<usize>, parent_id_opt: Option<NodeId> },
    /// A run of text.
    Text { content: String, ast_node_id: NodeId, parent_id_opt: Option<NodeId> },
}

/// The pool that owns the markup nodes.
#[derive(Debug)]
pub struct SlowPool {
    pub nodes: Vec<MarkupNode>,
}

/// The text of the module, line by line.
#[derive(Debug)]
pub struct CodeLines {
    pub lines: Vec<String>,
}

/// For every line and column, the markup node that is drawn there.
#[derive(Debug)]
pub struct GridNodeMap {
    pub lines: Vec<Vec<NodeId>>,
}

/// The measure of one glyph, each number by the bits of its 32-bit encoding.
#[derive(Clone, Copy, Debug, PartialEq, Eq)]
pub struct Rect {
    pub top_left_x: u32,
    pub top_left_y: u32,
    pub width: u32,
    pub height: u32,
}

/// The carets that a non-empty list holds, first to last.
pub uninterp spec fn carets(list: NonEmpty<CaretEntry>) -> Seq<CaretEntry>;

/// `NonEmpty::new`: the list that holds the given caret and nothing else.
#[verifier::external_body]
fn single_caret(entry: CaretEntry) -> (r: NonEmpty<CaretEntry>)
    ensures
        carets(r) == seq![entry],
{
    NonEmpty::new(entry)
}

/// The state of one module that is open for editing.
#[derive(Debug)]
pub struct EdModel {
    pub module: EdModule,
    pub file_path: String,
    pub code_lines: CodeLines,
    /// Maps a position in the text to the markup node drawn there.
    pub grid_node_map: GridNodeMap,
    pub markup_root_id: NodeId,
    pub markup_node_pool: SlowPool,
    /// The measure of a single glyph, once it is known.
    pub glyph_dim_rect_opt: Option<Rect>,
    pub has_focus: bool,
    /// The carets; there is always at least one.
    pub caret_w_select_vec: NonEmpty<CaretEntry>,
    /// Whether the model changed since it was last drawn.
    pub dirty: bool,
}

/// The markup root of a fresh model: for an empty text a blank with the
/// caret on it, else the text itself.
pub open spec fn is_fresh_root(node: MarkupNode, code: Seq<char>, ast_root_id: NodeId) -> bool {
    if code.len() == 0 {
        node == (MarkupNode::Blank { ast_node_id: ast_root_id, caret_at: Some(0), parent_id_opt: None })
    } else {
        node matches MarkupNode::Text { content, ast_node_id, parent_id_opt } && content@ == code
            && ast_node_id == ast_root_id && parent_id_opt.is_none()
    }
}

/// Whether the model is the fresh model of the module and its text.
pub open spec fn is_fresh(model: EdModel, code: Seq<char>, path: Seq<char>) -> bool {
    &&& model.file_path@ == path
    &&& model.markup_root_id == 0
    &&& model.markup_node_pool.nodes@.len() == 1
    &&& is_fresh_root(model.markup_node_pool.nodes@[0], code, model.module.ast_root_id)
    &&& model.code_lines.lines@.len() == 1
    &&& model.code_lines.lines@[0]@ == code
    &&& model.grid_node_map.lines@.len() == 1
    &&& model.grid_node_map.lines@[0]@ == Seq::new(code.len(), |i: int| 0usize)
    &&& model.glyph_dim_rect_opt.is_none()
    &&& model.has_focus
    &&& carets(model.caret_w_select_vec) == seq![((0usize, 0usize), None::<NodeId>)]
    &&& model.dirty
}

/// Makes the model of a module that was just opened.
///
/// The module is made as `EdModule::new` makes it, and fails as it fails.
/// The markup has one node, the root; the text is one line, every column
/// of which maps to the root; one caret stands at the start; the model has
/// the focus and is yet to be drawn.
pub fn init_model(code_str: &str, file_path: &str, env: Env, parsed: Result<CanExpr, String>) -> (r:
    Result<EdModel, EdError>)
    ensures
        match r {
            Ok(model) => root_of(code_str@, parsed) matches Some(root) && model.module.env.pool@
                == env.pool@.push(root) && model.module.ast_root_id == env.pool@.len() && is_fresh(
                model,
                code_str@,
                file_path@,
            ),
            Err(EdError::ParseError { syntax_err }) => is_parse_failure(
                code_str@,
                parsed,
                syntax_err,
            ),
        },
{
    let module = match EdModule::new(code_str, env, parsed) {
        Ok(m) => m,
        Err(e) => return Err(e),
    };
    let ast_root_id = module.ast_root_id;
    let mut markup_node_pool = SlowPool { nodes: Vec::new() };
    let markup_root_id = markup_node_pool.nodes.len();
    if code_str.is_empty() {
        markup_node_pool.nodes.push(
            MarkupNode::Blank { ast_node_id: ast_root_id, caret_at: Some(0), parent_id_opt: None },
        );
    } else {
        markup_node_pool.nodes.push(
            MarkupNode::Text {
                content: code_str.to_owned(),
                ast_node_id: ast_root_id,
                parent_id_opt: None,
            },
        );
    }
    let mut lines: Vec<String> = Vec::new();
    lines.push(code_str.to_owned());
    let columns = code_str.unicode_len();
    let mut row: Vec<NodeId> = Vec::new();
    let mut i: usize = 0;
    while i < columns
        invariant
            i <= columns,
            row@ == Seq::new(i as nat, |j: int| 0usize),
            markup_root_id == 0,
        decreases columns - i,
    {
        row.push(markup_root_id);
        i += 1;
        proof {
            assert(row@ =~= Seq::new(i as nat, |j: int| 0usize));
        }
    }
    let mut grid: Vec<Vec<NodeId>> = Vec::new();
    grid.push(row);
    Ok(
        EdModel {
            module,
            file_path: file_path.to_owned(),
            code_lines: CodeLines { lines },
            grid_node_map: GridNodeMap { lines: grid },
            markup_root_id,
            markup_node_pool,
            glyph_dim_rect_opt: None,
            has_focus: true,
            caret_w_select_vec: single_caret(((0, 0), None)),
            dirty: true,
        },
    )
}

} // verus!
