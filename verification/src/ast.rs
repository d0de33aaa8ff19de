//! The parts of a Nix file that the dependency graph follows: derivation
//! handles, path literals, and the `import _/name` module expression.

use vstd::prelude::*;

use rnix::SyntaxKind;

use crate::fs::is_nix;
use crate::path::is_nix_path;
use crate::text::{chars_eq, chars_of, string_from_chars};

verus! {

/// The kinds of syntax node that matter here.
#[derive(Debug, Clone, Copy, PartialEq, Eq, Structural)]
pub enum SyntaxTag {
    /// A function application.
    Apply,
    /// A path literal (absolute, relative, home or search path).
    Path,
    /// An attribute selection.
    Select,
    /// Anything else.
    Other,
}

/// One syntax node of a parsed file: its kind, its text, and the text of
/// its first child node.
#[derive(Debug)]
pub struct SyntaxNodeRecord {
    pub kind: SyntaxTag,
    pub text: String,
    pub first_child_text: Option<String>,
}

/// The abstract form of a syntax node.
pub struct SyntaxNodeView {
    pub kind: SyntaxTag,
    pub text: Seq<char>,
    pub first_child_text: Option<Seq<char>>,
}

impl View for SyntaxNodeRecord {
    type V = SyntaxNodeView;

    open spec fn view(&self) -> SyntaxNodeView {
        SyntaxNodeView {
            kind: self.kind,
            text: self.text@,
            first_child_text: match self.first_child_text {
                Some(t) => Some(t@),
                None => None,
            },
        }
    }
}

/// The views of a sequence of syntax nodes.
pub open spec fn node_views(v: Seq<SyntaxNodeRecord>) -> Seq<SyntaxNodeView> {
    v.map_values(|n: SyntaxNodeRecord| n@)
}

/// The syntax nodes of the Nix source `source`, as `rnix` parses it, in
/// pre-order (each node before its children, children in order), the root
/// first.
pub uninterp spec fn nix_syntax_nodes(source: Seq<char>) -> Seq<SyntaxNodeView>;

/// Parses Nix source with `rnix::Root::parse` and lists the syntax nodes of
/// the tree in pre-order (`descendants` of the root), each with its kind,
/// text and first child's text. The result is what `nix_syntax_nodes` names
/// for the source; nothing more is claimed of the parser.
#[verifier::external_body]
fn parse_nix_nodes(source: &str) -> (nodes: Vec<SyntaxNodeRecord>)
    ensures
        node_views(nodes@) == nix_syntax_nodes(source@),
{
    rnix::Root::parse(source).syntax().descendants().map(|n| SyntaxNodeRecord {
        kind: match n.kind() {
            SyntaxKind::NODE_APPLY => SyntaxTag::Apply,
            SyntaxKind::NODE_PATH_ABS | SyntaxKind::NODE_PATH_REL => SyntaxTag::Path,
            SyntaxKind::NODE_PATH_HOME | SyntaxKind::NODE_PATH_SEARCH => SyntaxTag::Path,
            SyntaxKind::NODE_SELECT => SyntaxTag::Select,
            _ => SyntaxTag::Other,
        },
        text: n.text().to_string(),
        first_child_text: n.first_child().map(|c| c.text().to_string()),
    }).collect()
}

/// An expression the dependency graph follows.
#[derive(Debug)]
pub enum NixAst {
    /// An attribute selection on `_`, such as `_.path.to.my.derivation`.
    MrxDerivation { name: String },
    /// `import _/name` or `import ./_/name`.
    ImportOwnNameModuleExpression,
    /// A path literal that names a directory, ending in `.` (such as `./.`).
    NixDirectoryPath { path: String },
    /// Any other path literal.
    SimplePath { path: String },
}

/// The abstract form of an expression.
pub enum NixAstView {
    MrxDerivation(Seq<char>),
    ImportOwnNameModuleExpression,
    NixDirectoryPath(Seq<char>),
    SimplePath(Seq<char>),
}

impl View for NixAst {
    type V = NixAstView;

    open spec fn view(&self) -> NixAstView {
        match self {
            NixAst::MrxDerivation { name } => NixAstView::MrxDerivation(name@),
            NixAst::ImportOwnNameModuleExpression => NixAstView::ImportOwnNameModuleExpression,
            NixAst::NixDirectoryPath { path } => NixAstView::NixDirectoryPath(path@),
            NixAst::SimplePath { path } => NixAstView::SimplePath(path@),
        }
    }
}

impl NixAst {
    /// A copy of the expression.
    pub fn duplicate(&self) -> (r: NixAst)
        ensures
            r@ == self@,
    {
        match self {
            NixAst::MrxDerivation { name } => NixAst::MrxDerivation { name: name.clone() },
            NixAst::ImportOwnNameModuleExpression => NixAst::ImportOwnNameModuleExpression,
            NixAst::NixDirectoryPath { path } => NixAst::NixDirectoryPath { path: path.clone() },
            NixAst::SimplePath { path } => NixAst::SimplePath { path: path.clone() },
        }
    }
}

/// `import _/name`
pub open spec fn import_own_name() -> Seq<char> {
    seq!['i', 'm', 'p', 'o', 'r', 't', ' ', '_', '/', 'n', 'a', 'm', 'e']
}

/// `import ./_/name`
pub open spec fn import_own_name_dot() -> Seq<char> {
    seq!['i', 'm', 'p', 'o', 'r', 't', ' ', '.', '/', '_', '/', 'n', 'a', 'm', 'e']
}

/// What a syntax node is as an expression the graph follows, if anything.
pub open spec fn classify_node(n: SyntaxNodeView) -> Option<NixAstView> {
    match n.kind {
        SyntaxTag::Apply => if n.text == import_own_name() || n.text == import_own_name_dot() {
            Some(NixAstView::ImportOwnNameModuleExpression)
        } else {
            None
        },
        SyntaxTag::Path => if n.text.len() > 0 && n.text.last() == '.' {
            Some(NixAstView::NixDirectoryPath(n.text))
        } else {
            Some(NixAstView::SimplePath(n.text))
        },
        SyntaxTag::Select => if n.first_child_text == Some(seq!['_']) {
            Some(NixAstView::MrxDerivation(n.text))
        } else {
            None
        },
        SyntaxTag::Other => None,
    }
}

/// The expressions among the nodes, in the nodes' order.
pub open spec fn walk_nodes(ns: Seq<SyntaxNodeView>) -> Seq<NixAstView>
    decreases ns.len(),
{
    if ns.len() == 0 {
        seq![]
    } else {
        let rest = walk_nodes(ns.drop_last());
        match classify_node(ns.last()) {
            Some(a) => rest.push(a),
            None => rest,
        }
    }
}

/// The views of a sequence of expressions.
pub open spec fn ast_views(v: Seq<NixAst>) -> Seq<NixAstView> {
    v.map_values(|a: NixAst| a@)
}

/// What a syntax node is as an expression the graph follows, if anything.
pub fn classify(node: &SyntaxNodeRecord) -> (r: Option<NixAst>)
    ensures
        match r {
            Some(a) => classify_node(node@) == Some(a@),
            None => classify_node(node@) is None,
        },
{
    let text = chars_of(node.text.as_str());
    match node.kind {
        SyntaxTag::Apply => {
            let a: [char; 13] = ['i', 'm', 'p', 'o', 'r', 't', ' ', '_', '/', 'n', 'a', 'm', 'e'];
            let b: [char; 15] = [
                'i',
                'm',
                'p',
                'o',
                'r',
                't',
                ' ',
                '.',
                '/',
                '_',
                '/',
                'n',
                'a',
                'm',
                'e',
            ];
            proof {
                assert(a@ =~= import_own_name());
                assert(b@ =~= import_own_name_dot());
            }
            if chars_eq(text.as_slice(), a.as_slice()) || chars_eq(text.as_slice(), b.as_slice()) {
                Some(NixAst::ImportOwnNameModuleExpression)
            } else {
                None
            }
        },
        SyntaxTag::Path => {
            if text.len() > 0 && text[text.len() - 1] == '.' {
                Some(NixAst::NixDirectoryPath { path: string_from_chars(text.as_slice()) })
            } else {
                Some(NixAst::SimplePath { path: string_from_chars(text.as_slice()) })
            }
        },
        SyntaxTag::Select => {
            let underscore = match &node.first_child_text {
                Some(t) => {
                    let c = chars_of(t.as_str());
                    let u: [char; 1] = ['_'];
                    proof {
                        assert(u@ =~= seq!['_']);
                    }
                    chars_eq(c.as_slice(), u.as_slice())
                },
                None => false,
            };
            if underscore {
                Some(NixAst::MrxDerivation { name: string_from_chars(text.as_slice()) })
            } else {
                None
            }
        },
        SyntaxTag::Other => None,
    }
}

/// The expressions among `nodes`, in order.
pub fn walk(nodes: &Vec<SyntaxNodeRecord>) -> (r: Vec<NixAst>)
    ensures
        ast_views(r@) == walk_nodes(node_views(nodes@)),
{
    let ghost nv = node_views(nodes@);
    let mut out: Vec<NixAst> = Vec::new();
    let mut i: usize = 0;
    proof {
        assert(nv.take(0) =~= Seq::<SyntaxNodeView>::empty());
        assert(ast_views(out@) =~= Seq::<NixAstView>::empty());
    }
    while i < nodes.len()
        invariant
            i <= nodes.len(),
            nv == node_views(nodes@),
            ast_views(out@) == walk_nodes(nv.take(i as int)),
        decreases nodes.len() - i,
    {
        proof {
            assert(nv.take(i + 1).drop_last() =~= nv.take(i as int));
            assert(nv.take(i + 1).last() == nodes@[i as int]@);
        }
        let ghost before = ast_views(out@);
        match classify(&nodes[i]) {
            Some(a) => {
                out.push(a);
                proof {
                    assert(ast_views(out@) =~= before.push(out@[out@.len() - 1]@));
                }
            },
            None => {},
        }
        i = i + 1;
    }
    proof {
        assert(nv.take(nodes.len() as int) =~= nv);
    }
    out
}

/// Why the expressions of a file could not be read.
#[derive(Debug, Clone)]
pub enum NixAstNodesError {
    /// The path's extension is not `nix`.
    NotNix(String),
    /// The file does not exist or is not UTF-8.
    MissingOrInvalidFile(String),
    /// Reading the file failed otherwise (the reason).
    Io(String),
}

/// How reading a file failed.
#[derive(Debug, Clone)]
pub enum FileReadError {
    NotFound,
    Other(String),
}

/// Decodes UTF-8 (`String::from_utf8`): the text when the bytes are valid
/// UTF-8, `None` otherwise.
#[verifier::external_body]
fn decode_utf8_string(bytes: Vec<u8>) -> (r: Option<String>)
    ensures
        match r {
            Some(s) => vstd::utf8::valid_utf8(bytes@) && s@ == vstd::utf8::decode_utf8(bytes@),
            None => !vstd::utf8::valid_utf8(bytes@),
        },
{
    String::from_utf8(bytes).ok()
}

/// The expressions of a Nix file, in the order of its syntax nodes.
#[derive(Debug)]
pub struct NixAstNodes(pub Vec<NixAst>);

impl View for NixAstNodes {
    type V = Seq<NixAstView>;

    open spec fn view(&self) -> Seq<NixAstView> {
        ast_views(self.0@)
    }
}

impl NixAstNodes {
    /// The expressions among the given syntax nodes.
    pub fn from_syntax_nodes(nodes: &Vec<SyntaxNodeRecord>) -> (r: NixAstNodes)
        ensures
            r@ == walk_nodes(node_views(nodes@)),
    {
        NixAstNodes(walk(nodes))
    }

    /// The expressions of the Nix source `source`.
    pub fn from_source(source: &str) -> (r: NixAstNodes)
        ensures
            r@ == walk_nodes(nix_syntax_nodes(source@)),
    {
        let nodes = parse_nix_nodes(source);
        Self::from_syntax_nodes(&nodes)
    }

    /// Whether the file at `path` is read at all: only Nix files are.
    pub fn check_path(path: &str) -> (r: Result<(), NixAstNodesError>)
        ensures
            match r {
                Ok(()) => is_nix_path(path@),
                Err(e) => !is_nix_path(path@) && (e matches NixAstNodesError::NotNix(p) && p@
                    == path@),
            },
    {
        if is_nix(path) {
            Ok(())
        } else {
            let c = chars_of(path);
            Err(NixAstNodesError::NotNix(string_from_chars(c.as_slice())))
        }
    }

    /// The expressions of the Nix file at `path`, given what reading it
    /// gave: a missing file or one that is not UTF-8 is refused as missing
    /// or invalid, another read failure as an I/O error.
    pub fn from_file_contents(path: &str, contents: Result<Vec<u8>, FileReadError>) -> (r: Result<
        NixAstNodes,
        NixAstNodesError,
    >)
        ensures
            match contents {
                Ok(bytes) => if vstd::utf8::valid_utf8(bytes@) {
                    r matches Ok(n) && n@ == walk_nodes(
                        nix_syntax_nodes(vstd::utf8::decode_utf8(bytes@)),
                    )
                } else {
                    r matches Err(NixAstNodesError::MissingOrInvalidFile(p)) && p@ == path@
                },
                Err(FileReadError::NotFound) => r matches Err(
                    NixAstNodesError::MissingOrInvalidFile(p),
                ) && p@ == path@,
                Err(FileReadError::Other(m)) => r matches Err(NixAstNodesError::Io(e)) && e@
                    == m@,
            },
    {
        match contents {
            Ok(bytes) => match decode_utf8_string(bytes) {
                Some(s) => Ok(Self::from_source(s.as_str())),
                None => {
                    let c = chars_of(path);
                    Err(NixAstNodesError::MissingOrInvalidFile(string_from_chars(c.as_slice())))
                },
            },
            Err(FileReadError::NotFound) => {
                let c = chars_of(path);
                Err(NixAstNodesError::MissingOrInvalidFile(string_from_chars(c.as_slice())))
            },
            Err(FileReadError::Other(m)) => Err(NixAstNodesError::Io(m)),
        }
    }

    /// The number of expressions.
    pub fn len(&self) -> (n: usize)
        ensures
            n == self@.len(),
    {
        self.0.len()
    }
}

} // verus!
