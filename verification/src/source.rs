//! Function definitions in C++ source, by syntax alone.
//!
//! The parser is tree-sitter's. A tree is read as its nodes in the order in which
//! they start, each with the number of nodes in its subtree.
use vstd::prelude::*;
use vstd::utf8::{decode_utf8, encode_utf8, is_char_boundary, valid_utf8};

use crate::strings::{
    chars_of, is_white, same_text, text_between, text_from_utf8, trimmed_front, white,
};

verus! {

pub const MAX_SOURCE_BYTES: usize = 8_388_608;

pub const MAX_FUNCTIONS: usize = 16_384;

pub const MAX_VISITED_NODES: usize = 131_072;

pub const MAX_DEPTH: usize = 256;

/// How long the parser may take before it is asked to stop.
pub const PARSE_DEADLINE_MS: u64 = 2_000;

/// Enclosing syntax, not compiler-resolved scopes.
#[derive(Clone, Copy, Debug, PartialEq, Eq, Structural)]
pub struct FunctionContext {
    pub namespace: bool,
    pub aggregate: bool,
    pub explicit_linkage: bool,
}

impl Default for FunctionContext {
    fn default() -> (context: Self)
        ensures
            context == outermost_context(),
    {
        FunctionContext { namespace: false, aggregate: false, explicit_linkage: false }
    }
}

/// The context of the whole file.
pub open spec fn outermost_context() -> FunctionContext {
    FunctionContext { namespace: false, aggregate: false, explicit_linkage: false }
}

/// One definition.
#[derive(Debug, PartialEq, Eq)]
pub struct FunctionDefinition {
    /// The header without its body or the defaults of its parameters. Formatting
    /// and comments are kept.
    pub signature: String,
    /// Where the header stands in the source, in bytes.
    pub source_range: std::ops::Range<usize>,
    pub context: FunctionContext,
}

/// Mathematical counterpart of [`FunctionDefinition`].
pub struct DefinitionModel {
    pub signature: Seq<char>,
    pub start: int,
    pub end: int,
    pub context: FunctionContext,
}

impl View for FunctionDefinition {
    type V = DefinitionModel;

    open spec fn view(&self) -> DefinitionModel {
        DefinitionModel {
            signature: self.signature@,
            start: self.source_range.start as int,
            end: self.source_range.end as int,
            context: self.context,
        }
    }
}

pub open spec fn definition_models(list: Seq<FunctionDefinition>) -> Seq<DefinitionModel> {
    list.map_values(|definition: FunctionDefinition| definition@)
}

/// Why an analysis has no answer. The source is never part of it.
#[derive(Clone, Copy, Debug, PartialEq, Eq, Structural)]
pub enum AnalysisError {
    InputTooLarge,
    InvalidSyntax,
    TimedOut,
    LimitExceeded,
    UnsupportedDefinition,
    ParserUnavailable,
}

impl AnalysisError {
    pub open spec fn text(self) -> Seq<char> {
        match self {
            AnalysisError::InputTooLarge => "C++ source exceeds the byte limit"@,
            AnalysisError::InvalidSyntax => "C++ syntax is incomplete or invalid"@,
            AnalysisError::TimedOut => "C++ parsing exceeded its cooperative deadline"@,
            AnalysisError::LimitExceeded =>
                "C++ analysis exceeded its traversal or output limit"@,
            AnalysisError::UnsupportedDefinition => "C++ definition form is unsupported"@,
            AnalysisError::ParserUnavailable => "C++ parser initialization failed"@,
        }
    }

    /// A sentence for people.
    pub fn message(&self) -> (message: &'static str)
        ensures
            message@ == self.text(),
    {
        match *self {
            AnalysisError::InputTooLarge => "C++ source exceeds the byte limit",
            AnalysisError::InvalidSyntax => "C++ syntax is incomplete or invalid",
            AnalysisError::TimedOut => "C++ parsing exceeded its cooperative deadline",
            AnalysisError::LimitExceeded => "C++ analysis exceeded its traversal or output limit",
            AnalysisError::UnsupportedDefinition => "C++ definition form is unsupported",
            AnalysisError::ParserUnavailable => "C++ parser initialization failed",
        }
    }
}

// ---------------------------------------------------------------------------
// Syntax trees
// ---------------------------------------------------------------------------

/// One node of a syntax tree.
#[derive(Clone, Debug)]
pub struct SyntaxNode {
    pub kind: String,
    pub start: usize,
    pub end: usize,
    /// How many nodes the subtree has, this one included.
    pub size: usize,
    /// Whether the subtree holds a syntax error.
    pub error: bool,
}

/// Mathematical counterpart of [`SyntaxNode`].
pub struct SyntaxModel {
    pub kind: Seq<char>,
    pub start: int,
    pub end: int,
    pub size: int,
    pub error: bool,
}

impl View for SyntaxNode {
    type V = SyntaxModel;

    open spec fn view(&self) -> SyntaxModel {
        SyntaxModel {
            kind: self.kind@,
            start: self.start as int,
            end: self.end as int,
            size: self.size as int,
            error: self.error,
        }
    }
}

/// A tree that tree-sitter built.
#[verifier::external_type_specification]
#[verifier::external_body]
pub struct ExTree(tree_sitter::Tree);

/// The nodes of a tree, parents before children and siblings from left to right.
pub uninterp spec fn tree_nodes(tree: tree_sitter::Tree) -> Seq<SyntaxModel>;

/// Where the child of a node that the grammar gives a field name starts, by the
/// number of the node and the name of the field.
pub uninterp spec fn tree_fields(tree: tree_sitter::Tree) -> Map<(int, Seq<char>), int>;

/// The nodes that tree-sitter's C++ grammar finds in a source.
pub uninterp spec fn cpp_nodes(source: Seq<char>) -> Seq<SyntaxModel>;

/// The fields that tree-sitter's C++ grammar finds in a source.
pub uninterp spec fn cpp_fields(source: Seq<char>) -> Map<(int, Seq<char>), int>;

/// Whether the parser has had its time.
pub fn deadline_passed(elapsed_ms: u128, limit_ms: u64) -> (passed: bool)
    ensures
        passed == (elapsed_ms >= limit_ms),
{
    elapsed_ms >= limit_ms as u128
}

/// `tree_sitter::Parser::parse_with_options` with the grammar of
/// `tree_sitter_cpp`, asked to stop once `limit_ms` have passed. The tree is a
/// function of the source. Nothing is said of when the parser stops early or of
/// whether the grammar can be set.
#[verifier::external_body]
fn parse_cpp(source: &str, limit_ms: u64) -> (tree: Result<tree_sitter::Tree, AnalysisError>)
    requires
        limit_ms == PARSE_DEADLINE_MS,
    ensures
        match tree {
            Ok(tree) => tree_nodes(tree) == cpp_nodes(source@) && tree_fields(tree) == cpp_fields(
                source@,
            ),
            Err(error) => error == AnalysisError::TimedOut || error
                == AnalysisError::ParserUnavailable,
        },
{
    let mut parser = tree_sitter::Parser::new();
    parser.set_language(&tree_sitter_cpp::LANGUAGE.into()).map_err(
        |_| AnalysisError::ParserUnavailable,
    )?;
    let started = std::time::Instant::now();
    let mut progress = |_: &tree_sitter::ParseState| match deadline_passed(
        started.elapsed().as_millis(),
        limit_ms,
    ) {
        true => std::ops::ControlFlow::Break(()),
        false => std::ops::ControlFlow::Continue(()),
    };
    let options = tree_sitter::ParseOptions::new().progress_callback(&mut progress);
    let mut text = |at: usize, _| source.as_bytes().get(at..).unwrap_or_default();
    parser.parse_with_options(&mut text, None, Some(options)).ok_or(AnalysisError::TimedOut)
}

/// `tree_sitter::Node::descendant_count` of the root: how many nodes there are.
#[verifier::external_body]
fn node_count(tree: &tree_sitter::Tree) -> (count: usize)
    ensures
        count == tree_nodes(*tree).len(),
{
    tree.root_node().descendant_count()
}

/// `tree_sitter::TreeCursor::goto_descendant`: the node of that number, with its
/// kind, its place, the size of its subtree and whether that holds an error.
#[verifier::external_body]
fn node_at(tree: &tree_sitter::Tree, index: usize) -> (node: SyntaxNode)
    requires
        index < tree_nodes(*tree).len(),
    ensures
        node@ == tree_nodes(*tree)[index as int],
{
    let mut cursor = tree.walk();
    cursor.goto_descendant(index);
    let node = cursor.node();
    SyntaxNode {
        kind: node.kind().to_owned(),
        start: node.start_byte(),
        end: node.end_byte(),
        size: node.descendant_count(),
        error: node.has_error(),
    }
}

/// `tree_sitter::Node::child_by_field_name`: where the first child with that
/// field of the node of that number starts, if there is one.
#[verifier::external_body]
fn field_start(tree: &tree_sitter::Tree, index: usize, field: &str) -> (start: Option<usize>)
    requires
        index < tree_nodes(*tree).len(),
    ensures
        match start {
            Some(start) => tree_fields(*tree).dom().contains((index as int, field@))
                && tree_fields(*tree)[(index as int, field@)] == start,
            None => !tree_fields(*tree).dom().contains((index as int, field@)),
        },
{
    let mut cursor = tree.walk();
    cursor.goto_descendant(index);
    cursor.node().child_by_field_name(field).map(|child| child.start_byte())
}

/// A syntax tree to be asked about its nodes, by number.
pub trait SyntaxTree {
    spec fn nodes(&self) -> Seq<SyntaxModel>;

    spec fn fields(&self) -> Map<(int, Seq<char>), int>;

    fn count(&self) -> (count: usize)
        ensures
            count == self.nodes().len(),
    ;

    fn node(&self, index: usize) -> (node: SyntaxNode)
        requires
            index < self.nodes().len(),
        ensures
            node@ == self.nodes()[index as int],
    ;

    fn field(&self, index: usize, name: &str) -> (start: Option<usize>)
        requires
            index < self.nodes().len(),
        ensures
            match start {
                Some(start) => self.fields().dom().contains((index as int, name@))
                    && self.fields()[(index as int, name@)] == start,
                None => !self.fields().dom().contains((index as int, name@)),
            },
    ;
}

impl SyntaxTree for tree_sitter::Tree {
    open spec fn nodes(&self) -> Seq<SyntaxModel> {
        tree_nodes(*self)
    }

    open spec fn fields(&self) -> Map<(int, Seq<char>), int> {
        tree_fields(*self)
    }

    fn count(&self) -> (count: usize) {
        node_count(self)
    }

    fn node(&self, index: usize) -> (node: SyntaxNode) {
        node_at(self, index)
    }

    fn field(&self, index: usize, name: &str) -> (start: Option<usize>) {
        field_start(self, index, name)
    }
}

/// A syntax tree written out: its nodes in order, and the fields of each node.
#[derive(Debug)]
pub struct SyntaxTable {
    pub nodes: Vec<SyntaxNode>,
    /// For each node, the name of a field and where it starts.
    pub fields: Vec<Vec<(String, usize)>>,
}

/// Where the first field of that name starts.
pub open spec fn field_in(fields: Seq<(String, usize)>, name: Seq<char>) -> Option<int>
    decreases fields.len(),
{
    if fields.len() == 0 {
        None
    } else if fields[0].0@ == name {
        Some(fields[0].1 as int)
    } else {
        field_in(fields.drop_first(), name)
    }
}

impl SyntaxTree for SyntaxTable {
    open spec fn nodes(&self) -> Seq<SyntaxModel> {
        self.nodes@.map_values(|node: SyntaxNode| node@)
    }

    open spec fn fields(&self) -> Map<(int, Seq<char>), int> {
        Map::new(
            |key: (int, Seq<char>)|
                0 <= key.0 < self.fields@.len() && field_in(self.fields@[key.0]@, key.1) is Some,
            |key: (int, Seq<char>)| field_in(self.fields@[key.0]@, key.1)->Some_0,
        )
    }

    fn count(&self) -> (count: usize) {
        self.nodes.len()
    }

    fn node(&self, index: usize) -> (node: SyntaxNode) {
        let node = &self.nodes[index];
        SyntaxNode {
            kind: node.kind.clone(),
            start: node.start,
            end: node.end,
            size: node.size,
            error: node.error,
        }
    }

    fn field(&self, index: usize, name: &str) -> (start: Option<usize>) {
        if index >= self.fields.len() {
            return None;
        }
        let list = &self.fields[index];
        assert(list@.skip(0) =~= list@);
        for at in 0..list.len()
            invariant
                list@ == self.fields@[index as int]@,
                field_in(list@, name@) == field_in(list@.skip(at as int), name@),
                index < self.fields@.len(),
        {
            if same_text(list[at].0.as_str(), name) {
                return Some(list[at].1);
            }
            assert(list@.skip(at as int).drop_first() =~= list@.skip(at + 1));
        }
        None
    }
}

/// The nodes from `at` on that are siblings, up to `end`.
pub open spec fn siblings(nodes: Seq<SyntaxModel>, at: int, end: int) -> Seq<int>
    decreases if at < nodes.len() { nodes.len() - at } else { 0 },
{
    if at < 0 || at >= end || at >= nodes.len() || nodes[at].size <= 0 {
        Seq::empty()
    } else {
        seq![at] + siblings(nodes, at + nodes[at].size, end)
    }
}

/// The children of a node.
pub open spec fn children(nodes: Seq<SyntaxModel>, index: int) -> Seq<int> {
    siblings(nodes, index + 1, index + nodes[index].size)
}

pub open spec fn numbers(list: Seq<usize>) -> Seq<int> {
    list.map_values(|index: usize| index as int)
}

fn list_children<T: SyntaxTree>(tree: &T, index: usize, size: usize) -> (list: Vec<usize>)
    requires
        index < tree.nodes().len(),
        size == tree.nodes()[index as int].size,
    ensures
        numbers(list@) == children(tree.nodes(), index as int),
        forall|i: int| 0 <= i < list@.len() ==> list@[i] < tree.nodes().len(),
{
    let ghost nodes = tree.nodes();
    let count = tree.count();
    let end: usize = if size > usize::MAX - index { usize::MAX } else { index + size };
    let mut list: Vec<usize> = Vec::new();
    let mut at: usize = index + 1;
    assert(numbers(list@) =~= Seq::<int>::empty());
    assert(numbers(list@) + siblings(nodes, at as int, index + size) =~= siblings(
        nodes,
        at as int,
        index + size,
    ));
    while at < end && at < count
        invariant
            nodes == tree.nodes(),
            count == nodes.len(),
            end == index + size || (end == usize::MAX && index + size > usize::MAX),
            children(nodes, index as int) == numbers(list@) + siblings(
                nodes,
                at as int,
                index + size,
            ),
            forall|i: int| 0 <= i < list@.len() ==> list@[i] < nodes.len(),
        decreases count - at,
    {
        let node = tree.node(at);
        if node.size == 0 {
            assert(siblings(nodes, at as int, index + size) =~= Seq::<int>::empty());
            assert(numbers(list@) + Seq::<int>::empty() =~= numbers(list@));
            return list;
        }
        let ghost before = numbers(list@);
        list.push(at);
        proof {
            assert(numbers(list@) =~= before.push(at as int));
            assert(before + (seq![at as int] + siblings(nodes, at + node.size, index + size))
                =~= numbers(list@) + siblings(nodes, at + node.size, index + size));
        }
        at = if node.size > count - at { count } else { at + node.size };
        proof {
            if node.size > count - list@.last() {
                assert(siblings(nodes, list@.last() + node.size, index + size) =~= Seq::empty());
                assert(siblings(nodes, at as int, index + size) =~= Seq::empty());
            }
        }
    }
    assert(siblings(nodes, at as int, index + size) =~= Seq::<int>::empty());
    assert(numbers(list@) + Seq::<int>::empty() =~= numbers(list@));
    list
}

// ---------------------------------------------------------------------------
// Headers
// ---------------------------------------------------------------------------

/// The first of the given nodes that has that kind.
pub open spec fn first_of_kind(
    nodes: Seq<SyntaxModel>,
    among: Seq<int>,
    kind: Seq<char>,
) -> Option<int>
    decreases among.len(),
{
    if among.len() == 0 {
        None
    } else if nodes[among[0]].kind == kind {
        Some(among[0])
    } else {
        first_of_kind(nodes, among.drop_first(), kind)
    }
}

/// `at` moved back over the spaces and tabs before it, but not past `floor`.
///
/// A newline may end a line comment, so it is not moved over: without it the
/// comment would swallow what follows.
pub open spec fn before_blanks(source: Seq<u8>, at: int, floor: int) -> int
    decreases at - floor,
{
    if at > floor && 0 < at <= source.len() && (source[at - 1] == 32 || source[at - 1] == 9) {
        before_blanks(source, at - 1, floor)
    } else {
        at
    }
}

/// The places of the parameter defaults of a header that ends at `limit`, in
/// source order, and how many visits are left afterwards.
///
/// Every node taken from `pending` costs a visit. Nodes that start after the
/// header are passed over, a parameter with a default is cut from its `=` to its
/// end, and every other node is followed by its children.
pub open spec fn find_defaults(
    nodes: Seq<SyntaxModel>,
    source: Seq<u8>,
    limit: int,
    pending: Seq<(int, nat)>,
    remaining: nat,
    cuts: Seq<(int, int)>,
) -> Result<(Seq<(int, int)>, nat), AnalysisError>
    decreases remaining,
{
    if pending.len() == 0 {
        Ok((cuts, remaining))
    } else {
        let (part, depth) = pending.last();
        let rest = pending.drop_last();
        if depth > MAX_DEPTH || remaining == 0 {
            Err(AnalysisError::LimitExceeded)
        } else {
            let left = (remaining - 1) as nat;
            let kids = children(nodes, part);
            if nodes[part].start >= limit {
                find_defaults(nodes, source, limit, rest, left, cuts)
            } else if nodes[part].kind == "optional_parameter_declaration"@ {
                match first_of_kind(nodes, kids, "="@) {
                    None => Err(AnalysisError::UnsupportedDefinition),
                    Some(equals) => {
                        let start = before_blanks(source, nodes[equals].start, nodes[part].start);
                        find_defaults(
                            nodes,
                            source,
                            limit,
                            rest,
                            left,
                            cuts.push((start, nodes[part].end)),
                        )
                    },
                }
            } else if rest.len() + kids.len() > left {
                Err(AnalysisError::LimitExceeded)
            } else {
                find_defaults(nodes, source, limit, rest + below(kids, depth), left, cuts)
            }
        }
    }
}

/// The children of a node at `depth`, the last one first, to be visited from the
/// back.
pub open spec fn below(kids: Seq<int>, depth: nat) -> Seq<(int, nat)> {
    Seq::new(kids.len(), |i: int| (kids[kids.len() - 1 - i], depth + 1))
}

/// `source[at..to]` without the cuts, or `None` where they overlap or leave the
/// range.
pub open spec fn retained(source: Seq<u8>, at: int, to: int, cuts: Seq<(int, int)>) -> Option<
    Seq<u8>,
>
    decreases cuts.len(),
{
    if cuts.len() == 0 {
        Some(source.subrange(at, to))
    } else {
        let (start, end) = cuts[0];
        if start < at || end > to || start > end {
            None
        } else {
            match retained(source, end, to, cuts.drop_first()) {
                None => None,
                Some(rest) => Some(source.subrange(at, start) + rest),
            }
        }
    }
}

/// Whether `source[from..to]` is a run of whole characters.
pub open spec fn is_text_range(source: Seq<u8>, from: int, to: int) -> bool {
    &&& 0 <= from <= to <= source.len()
    &&& is_char_boundary(source, from)
    &&& is_char_boundary(source, to)
}

/// A text without the spaces and tabs at its back.
pub open spec fn without_back_blanks(text: Seq<char>) -> Seq<char>
    decreases text.len(),
{
    if text.len() > 0 && (text.last() == ' ' || text.last() == '\t') {
        without_back_blanks(text.drop_last())
    } else {
        text
    }
}

/// A node to visit: its number, the number of its parent, how deep it lies and
/// what it lies in.
pub struct VisitModel {
    pub node: int,
    pub parent: Option<int>,
    pub depth: nat,
    pub context: FunctionContext,
}

/// Where the header of a function starts: at the `template` in front of it, if
/// there is one.
pub open spec fn header_start(nodes: Seq<SyntaxModel>, visit: VisitModel) -> int {
    match visit.parent {
        Some(parent) if nodes[parent].kind == "template_declaration"@ => nodes[parent].start,
        _ => nodes[visit.node].start,
    }
}

/// The definition at a node, and how many visits are left after reading it.
pub open spec fn define(
    nodes: Seq<SyntaxModel>,
    fields: Map<(int, Seq<char>), int>,
    source: Seq<u8>,
    visit: VisitModel,
    remaining: nat,
) -> Result<(DefinitionModel, nat), AnalysisError> {
    let start = header_start(nodes, visit);
    if !fields.dom().contains((visit.node, "body"@)) {
        Err(AnalysisError::UnsupportedDefinition)
    } else {
        let end = fields[(visit.node, "body"@)];
        match find_defaults(
            nodes,
            source,
            end,
            seq![(visit.node, visit.depth)],
            remaining,
            Seq::empty(),
        ) {
            Err(error) => Err(error),
            Ok((cuts, left)) => if !is_text_range(source, start, end) {
                Err(AnalysisError::UnsupportedDefinition)
            } else {
                match retained(source, start, end, cuts) {
                    None => Err(AnalysisError::UnsupportedDefinition),
                    Some(bytes) => if !valid_utf8(bytes) {
                        Err(AnalysisError::UnsupportedDefinition)
                    } else {
                        Ok(
                            (
                                DefinitionModel {
                                    signature: without_back_blanks(
                                        trimmed_front(decode_utf8(bytes)),
                                    ),
                                    start,
                                    end,
                                    context: visit.context,
                                },
                                left,
                            ),
                        )
                    },
                }
            },
        }
    }
}

proof fn lemma_defaults_left(
    nodes: Seq<SyntaxModel>,
    source: Seq<u8>,
    limit: int,
    pending: Seq<(int, nat)>,
    remaining: nat,
    cuts: Seq<(int, int)>,
)
    ensures
        match find_defaults(nodes, source, limit, pending, remaining, cuts) {
            Ok((all, left)) => left <= remaining,
            Err(_) => true,
        },
    decreases remaining,
{
    if pending.len() > 0 && remaining > 0 {
        let (part, depth) = pending.last();
        let rest = pending.drop_last();
        let left = (remaining - 1) as nat;
        let kids = children(nodes, part);
        if depth <= MAX_DEPTH {
            if nodes[part].start >= limit {
                lemma_defaults_left(nodes, source, limit, rest, left, cuts);
            } else if nodes[part].kind == "optional_parameter_declaration"@ {
                match first_of_kind(nodes, kids, "="@) {
                    None => {},
                    Some(equals) => {
                        let start = before_blanks(source, nodes[equals].start, nodes[part].start);
                        lemma_defaults_left(
                            nodes,
                            source,
                            limit,
                            rest,
                            left,
                            cuts.push((start, nodes[part].end)),
                        );
                    },
                }
            } else {
                lemma_defaults_left(nodes, source, limit, rest + below(kids, depth), left, cuts);
            }
        }
    }
}

/// Spends one visit at `depth`.
pub fn charge(remaining: &mut usize, depth: usize) -> (charged: Result<(), AnalysisError>)
    ensures
        match charged {
            Ok(()) => depth <= MAX_DEPTH && *old(remaining) > 0 && *final(remaining) == *old(
                remaining,
            ) - 1,
            Err(error) => error == AnalysisError::LimitExceeded && (depth > MAX_DEPTH || *old(
                remaining,
            ) == 0) && *final(remaining) == *old(remaining),
        },
{
    if depth > MAX_DEPTH || *remaining == 0 {
        return Err(AnalysisError::LimitExceeded);
    }
    *remaining = *remaining - 1;
    Ok(())
}

fn find_equals<T: SyntaxTree>(tree: &T, among: &Vec<usize>) -> (found: Option<usize>)
    requires
        forall|i: int| 0 <= i < among@.len() ==> among@[i] < tree.nodes().len(),
    ensures
        match found {
            Some(found) => first_of_kind(tree.nodes(), numbers(among@), "="@) == Some(
                found as int,
            ) && found < tree.nodes().len(),
            None => first_of_kind(tree.nodes(), numbers(among@), "="@) is None,
        },
{
    let ghost nodes = tree.nodes();
    let ghost all = numbers(among@);
    assert(all.skip(0) =~= all);
    for at in 0..among.len()
        invariant
            nodes == tree.nodes(),
            all == numbers(among@),
            forall|i: int| 0 <= i < among@.len() ==> among@[i] < nodes.len(),
            first_of_kind(nodes, all, "="@) == first_of_kind(nodes, all.skip(at as int), "="@),
    {
        let node = tree.node(among[at]);
        assert(all.skip(at as int)[0] == among@[at as int]);
        if same_text(node.kind.as_str(), "=") {
            return Some(among[at]);
        }
        assert(all.skip(at as int).drop_first() =~= all.skip(at + 1));
    }
    None
}

pub open spec fn parts(list: Seq<(usize, usize)>) -> Seq<(int, nat)> {
    list.map_values(|part: (usize, usize)| (part.0 as int, part.1 as nat))
}

pub open spec fn spans(list: Seq<(usize, usize)>) -> Seq<(int, int)> {
    list.map_values(|span: (usize, usize)| (span.0 as int, span.1 as int))
}

/// Adds children to a stack so that the first of them is on top.
fn push_parts(pending: &mut Vec<(usize, usize)>, kids: &Vec<usize>, depth: usize)
    requires
        depth < usize::MAX,
    ensures
        parts(final(pending)@) == parts(old(pending)@) + below(numbers(kids@), depth as nat),
        forall|i: int|
            old(pending)@.len() <= i < final(pending)@.len() ==> kids@.contains(
                (#[trigger] final(pending)@[i]).0,
            ),
        forall|i: int|
            0 <= i < old(pending)@.len() ==> #[trigger] final(pending)@[i] == old(pending)@[i],
        final(pending)@.len() == old(pending)@.len() + kids@.len(),
{
    let ghost start = parts(pending@);
    let ghost added = below(numbers(kids@), depth as nat);
    let mut at: usize = kids.len();
    assert(parts(pending@) =~= start + added.take(0));
    while at > 0
        invariant
            at <= kids@.len(),
            depth < usize::MAX,
            added == below(numbers(kids@), depth as nat),
            start == parts(old(pending)@),
            parts(pending@) == start + added.take(kids@.len() - at),
            pending@.len() == old(pending)@.len() + kids@.len() - at,
            forall|i: int|
                old(pending)@.len() <= i < pending@.len() ==> kids@.contains(
                    (#[trigger] pending@[i]).0,
                ),
            forall|i: int|
                0 <= i < old(pending)@.len() ==> #[trigger] pending@[i] == old(pending)@[i],
        decreases at,
    {
        at -= 1;
        let ghost before = pending@;
        pending.push((kids[at], depth + 1));
        proof {
            let count = kids@.len() - at;
            assert(numbers(kids@)[at as int] == kids@[at as int]);
            assert(added[count - 1] == (kids@[at as int] as int, (depth + 1) as nat));
            assert(added.take(count) =~= added.take(count - 1).push(added[count - 1]));
            assert(parts(pending@) =~= parts(before).push(added[count - 1]));
            assert(parts(pending@) =~= start + added.take(count));
            assert(kids@.contains(kids@[at as int]));
        }
    }
    assert(added.take(kids@.len() as int) =~= added);
}

fn list_defaults<T: SyntaxTree>(
    tree: &T,
    source: &str,
    node: usize,
    depth: usize,
    limit: usize,
    remaining: &mut usize,
) -> (cuts: Result<Vec<(usize, usize)>, AnalysisError>)
    requires
        node < tree.nodes().len(),
    ensures
        match (
            cuts,
            find_defaults(
                tree.nodes(),
                encode_utf8(source@),
                limit as int,
                seq![(node as int, depth as nat)],
                *old(remaining) as nat,
                Seq::empty(),
            ),
        ) {
            (Ok(cuts), Ok((expected, left))) => spans(cuts@) == expected && *final(remaining)
                == left,
            (Err(error), Err(expected)) => error == expected,
            _ => false,
        },
{
    let ghost nodes = tree.nodes();
    let ghost start = *remaining as nat;
    let bytes = source.as_bytes();
    let mut cuts: Vec<(usize, usize)> = Vec::new();
    let mut pending: Vec<(usize, usize)> = Vec::new();
    pending.push((node, depth));
    proof {
        assert(parts(pending@) =~= seq![(node as int, depth as nat)]);
        assert(spans(cuts@) =~= Seq::<(int, int)>::empty());
    }
    while pending.len() > 0
        invariant
            nodes == tree.nodes(),
            bytes@ == encode_utf8(source@),
            start == *old(remaining),
            forall|i: int| 0 <= i < pending@.len() ==> (#[trigger] pending@[i]).0 < nodes.len(),
            find_defaults(
                nodes,
                bytes@,
                limit as int,
                seq![(node as int, depth as nat)],
                start,
                Seq::empty(),
            ) == find_defaults(
                nodes,
                bytes@,
                limit as int,
                parts(pending@),
                *remaining as nat,
                spans(cuts@),
            ),
        decreases *remaining, pending@.len(),
    {
        let ghost stack = parts(pending@);
        let (part, part_depth) = pending[pending.len() - 1];
        pending.pop();
        proof {
            assert(stack.last() == (part as int, part_depth as nat));
            assert(parts(pending@) =~= stack.drop_last());
        }
        match charge(remaining, part_depth) {
            Ok(()) => {},
            Err(error) => {
                return Err(error);
            },
        }
        let facts = tree.node(part);
        if facts.start >= limit {
            continue ;
        }
        let kids = list_children(tree, part, facts.size);
        if same_text(facts.kind.as_str(), "optional_parameter_declaration") {
            let equals = match find_equals(tree, &kids) {
                Some(equals) => equals,
                None => {
                    return Err(AnalysisError::UnsupportedDefinition);
                },
            };
            let from = tree.node(equals).start;
            let mut at: usize = from;
            while at > facts.start && at > 0 && at <= bytes.len() && (bytes[at - 1] == 32 || bytes[at
                - 1] == 9)
                invariant
                    at <= from,
                    before_blanks(bytes@, from as int, facts.start as int) == before_blanks(
                        bytes@,
                        at as int,
                        facts.start as int,
                    ),
                decreases at,
            {
                at -= 1;
            }
            let ghost before = spans(cuts@);
            cuts.push((at, facts.end));
            assert(spans(cuts@) =~= before.push((at as int, facts.end as int)));
            continue ;
        }
        if kids.len() > *remaining || pending.len() > *remaining - kids.len() {
            return Err(AnalysisError::LimitExceeded);
        }
        let ghost before = pending@;
        push_parts(&mut pending, &kids, part_depth);
        proof {
            assert forall|i: int| 0 <= i < pending@.len() implies (#[trigger] pending@[i]).0
                < nodes.len() by {
                if i < before.len() {
                    assert(pending@[i] == before[i]);
                } else {
                    assert(kids@.contains(pending@[i].0));
                }
            }
        }
    }
    Ok(cuts)
}

/// Copies the spans that are kept, each once.
fn keep(source: &[u8], from: usize, to: usize, cuts: &Vec<(usize, usize)>) -> (kept: Option<
    Vec<u8>,
>)
    requires
        from <= to <= source@.len(),
    ensures
        match kept {
            Some(kept) => retained(source@, from as int, to as int, spans(cuts@)) == Some(kept@),
            None => retained(source@, from as int, to as int, spans(cuts@)) is None,
        },
{
    let ghost all = spans(cuts@);
    let mut kept: Vec<u8> = Vec::new();
    let mut at: usize = from;
    proof {
        assert(all.skip(0) =~= all);
        match retained(source@, from as int, to as int, all) {
            None => {},
            Some(rest) => assert(kept@ + rest =~= rest),
        }
    }
    for index in 0..cuts.len()
        invariant
            all == spans(cuts@),
            from <= at <= to <= source@.len(),
            retained(source@, from as int, to as int, all) == match retained(
                source@,
                at as int,
                to as int,
                all.skip(index as int),
            ) {
                None => None::<Seq<u8>>,
                Some(rest) => Some(kept@ + rest),
            },
    {
        let (start, end) = cuts[index];
        let ghost tail = all.skip(index as int);
        proof {
            assert(tail[0] == (start as int, end as int));
            assert(tail.drop_first() =~= all.skip(index + 1));
        }
        if start < at || end > to || start > end {
            return None;
        }
        let ghost before = kept@;
        kept.extend_from_slice(vstd::slice::slice_subrange(source, at, start));
        proof {
            let piece = source@.subrange(at as int, start as int);
            assert(kept@ =~= before + piece);
            match retained(source@, end as int, to as int, all.skip(index + 1)) {
                None => {},
                Some(rest) => assert(before + (piece + rest) =~= kept@ + rest),
            }
        }
        at = end;
    }
    let ghost before = kept@;
    kept.extend_from_slice(vstd::slice::slice_subrange(source, at, to));
    assert(kept@ =~= before + source@.subrange(at as int, to as int));
    Some(kept)
}

/// Trims a header: white space in front, spaces and tabs behind.
fn tidy(text: &str) -> (tidied: String)
    ensures
        tidied@ == without_back_blanks(trimmed_front(text@)),
{
    let chars = chars_of(text);
    let mut from: usize = 0;
    assert(text@.skip(0) =~= text@);
    while from < chars.len() && white(chars[from])
        invariant
            chars@ == text@,
            from <= chars@.len(),
            trimmed_front(text@) == trimmed_front(text@.skip(from as int)),
        decreases chars@.len() - from,
    {
        assert(text@.skip(from as int).drop_first() =~= text@.skip(from + 1));
        from += 1;
    }
    let ghost front = text@.skip(from as int);
    let mut to: usize = chars.len();
    assert(text@.subrange(from as int, to as int) =~= front);
    while to > from && (chars[to - 1] == ' ' || chars[to - 1] == '\t')
        invariant
            chars@ == text@,
            from <= to <= chars@.len(),
            without_back_blanks(front) == without_back_blanks(
                text@.subrange(from as int, to as int),
            ),
        decreases to,
    {
        assert(text@.subrange(from as int, to as int).drop_last() =~= text@.subrange(
            from as int,
            to - 1,
        ));
        to -= 1;
    }
    text_between(&chars, from, to)
}

/// A node to visit.
#[derive(Clone, Copy)]
struct Visit {
    node: usize,
    parent: Option<usize>,
    depth: usize,
    context: FunctionContext,
}

impl View for Visit {
    type V = VisitModel;

    closed spec fn view(&self) -> VisitModel {
        VisitModel {
            node: self.node as int,
            parent: match self.parent {
                Some(parent) => Some(parent as int),
                None => None,
            },
            depth: self.depth as nat,
            context: self.context,
        }
    }
}

spec fn visit_models(list: Seq<Visit>) -> Seq<VisitModel> {
    list.map_values(|visit: Visit| visit@)
}

fn definition<T: SyntaxTree>(tree: &T, source: &str, visit: Visit, remaining: &mut usize) -> (
    defined: Result<FunctionDefinition, AnalysisError>)
    requires
        visit.node < tree.nodes().len(),
        visit.parent is Some ==> visit.parent->Some_0 < tree.nodes().len(),
    ensures
        match (
            defined,
            define(
                tree.nodes(),
                tree.fields(),
                encode_utf8(source@),
                visit@,
                *old(remaining) as nat,
            ),
        ) {
            (Ok(defined), Ok((expected, left))) => defined@ == expected && *final(remaining) == left
                && left <= *old(remaining),
            (Err(error), Err(expected)) => error == expected,
            _ => false,
        },
{
    let own = tree.node(visit.node);
    let start: usize = match visit.parent {
        Some(parent) => {
            let outer = tree.node(parent);
            if same_text(outer.kind.as_str(), "template_declaration") {
                outer.start
            } else {
                own.start
            }
        },
        None => own.start,
    };
    let end = match tree.field(visit.node, "body") {
        Some(end) => end,
        None => {
            return Err(AnalysisError::UnsupportedDefinition);
        },
    };
    proof {
        lemma_defaults_left(
            tree.nodes(),
            encode_utf8(source@),
            end as int,
            seq![(visit.node as int, visit.depth as nat)],
            *remaining as nat,
            Seq::empty(),
        );
    }
    let cuts = match list_defaults(tree, source, visit.node, visit.depth, end, remaining) {
        Ok(cuts) => cuts,
        Err(error) => {
            return Err(error);
        },
    };
    let bytes = source.as_bytes();
    if start > end || end > bytes.len() || !source.is_char_boundary(start)
        || !source.is_char_boundary(end) {
        return Err(AnalysisError::UnsupportedDefinition);
    }
    let kept = match keep(bytes, start, end, &cuts) {
        Some(kept) => kept,
        None => {
            return Err(AnalysisError::UnsupportedDefinition);
        },
    };
    let text = match text_from_utf8(kept) {
        Ok(text) => text,
        Err(_) => {
            return Err(AnalysisError::UnsupportedDefinition);
        },
    };
    Ok(
        FunctionDefinition {
            signature: tidy(text.as_str()),
            source_range: start..end,
            context: visit.context,
        },
    )
}

// ---------------------------------------------------------------------------
// The survey of a whole file
// ---------------------------------------------------------------------------

/// What the children of a node of that kind lie in.
pub open spec fn entered(context: FunctionContext, kind: Seq<char>) -> FunctionContext {
    if kind == "namespace_definition"@ {
        FunctionContext { namespace: true, ..context }
    } else if kind == "class_specifier"@ || kind == "struct_specifier"@ || kind
        == "union_specifier"@ {
        FunctionContext { aggregate: true, ..context }
    } else if kind == "linkage_specification"@ {
        FunctionContext { explicit_linkage: true, ..context }
    } else {
        context
    }
}

/// A child of a visited node.
pub open spec fn child_visit(nodes: Seq<SyntaxModel>, visit: VisitModel, kid: int) -> VisitModel {
    VisitModel {
        node: kid,
        parent: Some(visit.node),
        depth: visit.depth + 1,
        context: entered(visit.context, nodes[visit.node].kind),
    }
}

/// The children of a visited node, the last one first, to be visited from the
/// back.
pub open spec fn visits_below(
    nodes: Seq<SyntaxModel>,
    visit: VisitModel,
    kids: Seq<int>,
) -> Seq<VisitModel> {
    Seq::new(kids.len(), |i: int| child_visit(nodes, visit, kids[kids.len() - 1 - i]))
}

pub open spec fn is_function(nodes: Seq<SyntaxModel>, node: int) -> bool {
    nodes[node].kind == "function_definition"@
}

/// The definitions found from `pending` on, after those already found.
///
/// Every node taken from `pending` costs a visit; a function is read and not
/// entered, and every other node is followed by its children. No more nodes may
/// wait than visits are left.
pub open spec fn survey(
    nodes: Seq<SyntaxModel>,
    fields: Map<(int, Seq<char>), int>,
    source: Seq<u8>,
    pending: Seq<VisitModel>,
    remaining: nat,
    found: Seq<DefinitionModel>,
) -> Result<Seq<DefinitionModel>, AnalysisError>
    decreases remaining,
{
    if pending.len() == 0 {
        Ok(found)
    } else {
        let visit = pending.last();
        let rest = pending.drop_last();
        if visit.depth > MAX_DEPTH || remaining == 0 {
            Err(AnalysisError::LimitExceeded)
        } else {
            let left = (remaining - 1) as nat;
            let kids = children(nodes, visit.node);
            if is_function(nodes, visit.node) {
                if found.len() == MAX_FUNCTIONS {
                    Err(AnalysisError::LimitExceeded)
                } else {
                    match define(nodes, fields, source, visit, left) {
                        Err(error) => Err(error),
                        // Reading a definition never gives visits back.
                        Ok((definition, left)) => if left >= remaining {
                            Err(AnalysisError::LimitExceeded)
                        } else {
                            survey(nodes, fields, source, rest, left, found.push(definition))
                        },
                    }
                }
            } else if rest.len() + kids.len() > left {
                Err(AnalysisError::LimitExceeded)
            } else {
                survey(
                    nodes,
                    fields,
                    source,
                    rest + visits_below(nodes, visit, kids),
                    left,
                    found,
                )
            }
        }
    }
}

/// The visit that a survey starts with.
pub open spec fn root_visit() -> VisitModel {
    VisitModel { node: 0, parent: None, depth: 0, context: outermost_context() }
}

/// What a tree with the given nodes and fields amounts to.
pub open spec fn analysis(
    nodes: Seq<SyntaxModel>,
    fields: Map<(int, Seq<char>), int>,
    source: Seq<u8>,
) -> Result<Seq<DefinitionModel>, AnalysisError> {
    if nodes.len() == 0 || nodes[0].error {
        Err(AnalysisError::InvalidSyntax)
    } else {
        survey(nodes, fields, source, seq![root_visit()], MAX_VISITED_NODES as nat, Seq::empty())
    }
}

fn enter(context: FunctionContext, kind: &str) -> (inner: FunctionContext)
    ensures
        inner == entered(context, kind@),
{
    if same_text(kind, "namespace_definition") {
        FunctionContext { namespace: true, ..context }
    } else if same_text(kind, "class_specifier") || same_text(kind, "struct_specifier")
        || same_text(kind, "union_specifier") {
        FunctionContext { aggregate: true, ..context }
    } else if same_text(kind, "linkage_specification") {
        FunctionContext { explicit_linkage: true, ..context }
    } else {
        context
    }
}

fn push_visits(
    pending: &mut Vec<Visit>,
    kids: &Vec<usize>,
    parent: usize,
    depth: usize,
    inner: FunctionContext,
    Ghost(nodes): Ghost<Seq<SyntaxModel>>,
    Ghost(visit): Ghost<VisitModel>,
)
    requires
        depth < usize::MAX,
        parent == visit.node,
        depth == visit.depth,
        inner == entered(visit.context, nodes[visit.node].kind),
        parent < nodes.len(),
        forall|i: int| 0 <= i < kids@.len() ==> kids@[i] < nodes.len(),
        in_tree(old(pending)@, nodes.len()),
    ensures
        visit_models(final(pending)@) == visit_models(old(pending)@) + visits_below(
            nodes,
            visit,
            numbers(kids@),
        ),
        in_tree(final(pending)@, nodes.len()),
        final(pending)@.len() == old(pending)@.len() + kids@.len(),
{
    let ghost start = visit_models(pending@);
    let ghost added = visits_below(nodes, visit, numbers(kids@));
    let mut at: usize = kids.len();
    assert(visit_models(pending@) =~= start + added.take(0));
    while at > 0
        invariant
            at <= kids@.len(),
            depth < usize::MAX,
            parent == visit.node,
            depth == visit.depth,
            inner == entered(visit.context, nodes[visit.node].kind),
            parent < nodes.len(),
            forall|i: int| 0 <= i < kids@.len() ==> kids@[i] < nodes.len(),
            added == visits_below(nodes, visit, numbers(kids@)),
            start == visit_models(old(pending)@),
            visit_models(pending@) == start + added.take(kids@.len() - at),
            pending@.len() == old(pending)@.len() + kids@.len() - at,
            in_tree(pending@, nodes.len()),
        decreases at,
    {
        at -= 1;
        let ghost before = pending@;
        let kid = Visit { node: kids[at], parent: Some(parent), depth: depth + 1, context: inner };
        pending.push(kid);
        proof {
            let count = kids@.len() - at;
            assert(numbers(kids@)[at as int] == kids@[at as int]);
            assert(added[count - 1] == kid@);
            assert(added.take(count) =~= added.take(count - 1).push(added[count - 1]));
            assert(visit_models(pending@) =~= visit_models(before).push(kid@));
            assert(visit_models(pending@) =~= start + added.take(count));
        }
    }
    assert(added.take(kids@.len() as int) =~= added);
}

spec fn in_tree(list: Seq<Visit>, count: nat) -> bool {
    forall|i: int|
        0 <= i < list.len() ==> (#[trigger] list[i]).node < count && (list[i].parent is Some
            ==> list[i].parent->Some_0 < count)
}

/// The definitions in a source whose syntax tree is given.
pub fn survey_tree<T: SyntaxTree>(tree: &T, source: &str) -> (found: Result<
    Vec<FunctionDefinition>,
    AnalysisError,
>)
    ensures
        match (found, analysis(tree.nodes(), tree.fields(), encode_utf8(source@))) {
            (Ok(found), Ok(expected)) => definition_models(found@) == expected,
            (Err(error), Err(expected)) => error == expected,
            _ => false,
        },
{
    let ghost nodes = tree.nodes();
    let ghost fields = tree.fields();
    let ghost bytes = encode_utf8(source@);
    if tree.count() == 0 || tree.node(0).error {
        return Err(AnalysisError::InvalidSyntax);
    }
    let mut remaining: usize = MAX_VISITED_NODES;
    let mut output: Vec<FunctionDefinition> = Vec::new();
    let mut pending: Vec<Visit> = Vec::new();
    pending.push(
        Visit { node: 0, parent: None, depth: 0, context: FunctionContext::default() },
    );
    proof {
        assert(visit_models(pending@) =~= seq![root_visit()]);
        assert(definition_models(output@) =~= Seq::<DefinitionModel>::empty());
    }
    while pending.len() > 0
        invariant
            nodes == tree.nodes(),
            fields == tree.fields(),
            bytes == encode_utf8(source@),
            nodes.len() > 0,
            !nodes[0].error,
            in_tree(pending@, nodes.len()),
            analysis(nodes, fields, bytes) == survey(
                nodes,
                fields,
                bytes,
                visit_models(pending@),
                remaining as nat,
                definition_models(output@),
            ),
        decreases remaining, pending@.len(),
    {
        let ghost stack = visit_models(pending@);
        let visit = pending[pending.len() - 1];
        pending.pop();
        proof {
            assert(stack.last() == visit@);
            assert(visit_models(pending@) =~= stack.drop_last());
        }
        match charge(&mut remaining, visit.depth) {
            Ok(()) => {},
            Err(error) => {
                return Err(error);
            },
        }
        let node = tree.node(visit.node);
        if same_text(node.kind.as_str(), "function_definition") {
            if output.len() == MAX_FUNCTIONS {
                return Err(AnalysisError::LimitExceeded);
            }
            match definition(tree, source, visit, &mut remaining) {
                Ok(definition) => {
                    let ghost before = definition_models(output@);
                    output.push(definition);
                    assert(definition_models(output@) =~= before.push(definition@));
                },
                Err(error) => {
                    return Err(error);
                },
            }
            continue ;
        }
        let kids = list_children(tree, visit.node, node.size);
        if kids.len() > remaining || pending.len() > remaining - kids.len() {
            return Err(AnalysisError::LimitExceeded);
        }
        let inner = enter(visit.context, node.kind.as_str());
        push_visits(
            &mut pending,
            &kids,
            visit.node,
            visit.depth,
            inner,
            Ghost(nodes),
            Ghost(visit@),
        );
    }
    Ok(output)
}

/// The definitions in a C++ source, in source order, without filtering by name
/// or dropping repetitions. Definitions inside a function body are not listed.
///
/// The length is checked before parsing. The deadline of the parser is
/// cooperative, so nothing is said of when it strikes. A failure returns no
/// partial list.
pub fn analyze_cpp(source: &str) -> (found: Result<Vec<FunctionDefinition>, AnalysisError>)
    ensures
        if encode_utf8(source@).len() > MAX_SOURCE_BYTES {
            found is Err && found->Err_0 == AnalysisError::InputTooLarge
        } else {
            let expected = analysis(cpp_nodes(source@), cpp_fields(source@), encode_utf8(source@));
            match found {
                Ok(found) => expected is Ok && definition_models(found@) == expected->Ok_0,
                Err(error) => error == AnalysisError::TimedOut || error
                    == AnalysisError::ParserUnavailable || (expected is Err && error
                    == expected->Err_0),
            }
        },
{
    if source.as_bytes().len() > MAX_SOURCE_BYTES {
        return Err(AnalysisError::InputTooLarge);
    }
    match parse_cpp(source, PARSE_DEADLINE_MS) {
        Ok(tree) => survey_tree(&tree, source),
        Err(error) => Err(error),
    }
}

// ---------------------------------------------------------------------------
// What a survey lists
// ---------------------------------------------------------------------------

/// The functions at and below a visited node that lie in no other function, in
/// source order.
pub open spec fn outer_functions(nodes: Seq<SyntaxModel>, visit: VisitModel) -> Seq<VisitModel>
    decreases MAX_DEPTH + 1 - visit.depth, 0nat,
{
    if visit.depth > MAX_DEPTH {
        Seq::empty()
    } else if is_function(nodes, visit.node) {
        seq![visit]
    } else {
        outer_functions_among(nodes, visit, children(nodes, visit.node))
    }
}

/// The same for some children of a visited node, from left to right.
pub open spec fn outer_functions_among(
    nodes: Seq<SyntaxModel>,
    visit: VisitModel,
    kids: Seq<int>,
) -> Seq<VisitModel>
    decreases MAX_DEPTH - visit.depth, kids.len(),
{
    if kids.len() == 0 || visit.depth > MAX_DEPTH {
        Seq::empty()
    } else {
        outer_functions(nodes, child_visit(nodes, visit, kids[0])) + outer_functions_among(
            nodes,
            visit,
            kids.drop_first(),
        )
    }
}

spec fn outer_of_stack(nodes: Seq<SyntaxModel>, pending: Seq<VisitModel>) -> Seq<VisitModel>
    decreases pending.len(),
{
    if pending.len() == 0 {
        Seq::empty()
    } else {
        outer_functions(nodes, pending.last()) + outer_of_stack(nodes, pending.drop_last())
    }
}

/// Whether a definition is the one at a visited function: it starts with its
/// header, ends where its body starts, and carries its context.
pub open spec fn describes(
    nodes: Seq<SyntaxModel>,
    fields: Map<(int, Seq<char>), int>,
    visit: VisitModel,
    definition: DefinitionModel,
) -> bool {
    &&& fields.dom().contains((visit.node, "body"@))
    &&& definition.start == header_start(nodes, visit)
    &&& definition.end == fields[(visit.node, "body"@)]
    &&& definition.context == visit.context
}

proof fn lemma_stack_of_children(
    nodes: Seq<SyntaxModel>,
    rest: Seq<VisitModel>,
    visit: VisitModel,
    kids: Seq<int>,
)
    requires
        visit.depth <= MAX_DEPTH,
    ensures
        outer_of_stack(nodes, rest + visits_below(nodes, visit, kids)) == outer_functions_among(
            nodes,
            visit,
            kids,
        ) + outer_of_stack(nodes, rest),
    decreases kids.len(),
{
    let added = visits_below(nodes, visit, kids);
    if kids.len() == 0 {
        assert(rest + added =~= rest);
        assert(outer_functions_among(nodes, visit, kids) + outer_of_stack(nodes, rest)
            =~= outer_of_stack(nodes, rest));
    } else {
        assert((rest + added).last() == child_visit(nodes, visit, kids[0]));
        assert((rest + added).drop_last() =~= rest + visits_below(
            nodes,
            visit,
            kids.drop_first(),
        ));
        lemma_stack_of_children(nodes, rest, visit, kids.drop_first());
        let first = outer_functions(nodes, child_visit(nodes, visit, kids[0]));
        let others = outer_functions_among(nodes, visit, kids.drop_first());
        assert(first + (others + outer_of_stack(nodes, rest)) =~= (first + others)
            + outer_of_stack(nodes, rest));
    }
}

proof fn lemma_survey_lists(
    nodes: Seq<SyntaxModel>,
    fields: Map<(int, Seq<char>), int>,
    source: Seq<u8>,
    pending: Seq<VisitModel>,
    remaining: nat,
    found: Seq<DefinitionModel>,
)
    ensures
        match survey(nodes, fields, source, pending, remaining, found) {
            Err(_) => true,
            Ok(all) => {
                let expected = outer_of_stack(nodes, pending);
                &&& all.len() == found.len() + expected.len()
                &&& forall|i: int| 0 <= i < found.len() ==> #[trigger] all[i] == found[i]
                &&& forall|i: int|
                    0 <= i < expected.len() ==> #[trigger] describes(
                        nodes,
                        fields,
                        expected[i],
                        all[found.len() + i],
                    )
            },
        },
    decreases remaining,
{
    if pending.len() > 0 && remaining > 0 && pending.last().depth <= MAX_DEPTH {
        let visit = pending.last();
        let rest = pending.drop_last();
        let left = (remaining - 1) as nat;
        let kids = children(nodes, visit.node);
        let expected = outer_of_stack(nodes, pending);
        if is_function(nodes, visit.node) {
            match define(nodes, fields, source, visit, left) {
                Err(_) => {},
                Ok((definition, left)) => {
                    if left < remaining {
                        let grown = found.push(definition);
                        lemma_survey_lists(nodes, fields, source, rest, left, grown);
                        match survey(nodes, fields, source, rest, left, grown) {
                            Err(_) => {},
                            Ok(all) => {
                                let others = outer_of_stack(nodes, rest);
                                assert(expected =~= seq![visit] + others);
                                assert(all[found.len() as int] == grown[found.len() as int]);
                                assert(describes(nodes, fields, visit, definition));
                                assert forall|i: int| 0 <= i < found.len() implies #[trigger] all[i]
                                    == found[i] by {
                                    assert(all[i] == grown[i]);
                                }
                                assert forall|i: int|
                                    0 <= i < expected.len() implies #[trigger] describes(
                                    nodes,
                                    fields,
                                    expected[i],
                                    all[found.len() + i],
                                ) by {
                                    if i > 0 {
                                        assert(expected[i] == others[i - 1]);
                                        assert(describes(
                                            nodes,
                                            fields,
                                            others[i - 1],
                                            all[grown.len() + (i - 1)],
                                        ));
                                    }
                                }
                            },
                        }
                    }
                },
            }
        } else if rest.len() + kids.len() <= left {
            lemma_stack_of_children(nodes, rest, visit, kids);
            lemma_survey_lists(
                nodes,
                fields,
                source,
                rest + visits_below(nodes, visit, kids),
                left,
                found,
            );
        }
    }
}

/// An analysis lists every function that lies in no other function, in source
/// order, each with the range of its header and its context, and nothing else.
pub proof fn analysis_lists_the_outer_functions(
    nodes: Seq<SyntaxModel>,
    fields: Map<(int, Seq<char>), int>,
    source: Seq<u8>,
)
    ensures
        match analysis(nodes, fields, source) {
            Err(_) => true,
            Ok(all) => {
                let expected = outer_functions(nodes, root_visit());
                &&& all.len() == expected.len()
                &&& forall|i: int|
                    0 <= i < expected.len() ==> #[trigger] describes(
                        nodes,
                        fields,
                        expected[i],
                        all[i],
                    )
            },
        },
{
    let pending = seq![root_visit()];
    lemma_survey_lists(
        nodes,
        fields,
        source,
        pending,
        MAX_VISITED_NODES as nat,
        Seq::empty(),
    );
    assert(pending.drop_last() =~= Seq::<VisitModel>::empty());
    assert(outer_of_stack(nodes, pending.drop_last()) =~= Seq::<VisitModel>::empty());
    assert(outer_of_stack(nodes, pending) =~= outer_functions(nodes, root_visit()));
    match analysis(nodes, fields, source) {
        Err(_) => {},
        Ok(all) => {
            let expected = outer_functions(nodes, root_visit());
            assert forall|i: int| 0 <= i < expected.len() implies #[trigger] describes(
                nodes,
                fields,
                expected[i],
                all[i],
            ) by {
                assert(describes(nodes, fields, expected[i], all[0 + i]));
            }
        },
    }
}

/// Whether a tree is ordered as source is: a node lies within every node whose subtree
/// it is in, nodes of different subtrees follow one another, and the body of a function
/// lies within the function.
pub open spec fn is_ordered(nodes: Seq<SyntaxModel>, fields: Map<(int, Seq<char>), int>) -> bool {
    &&& forall|i: int|
        0 <= i < nodes.len() ==> (#[trigger] nodes[i]).size >= 1 && i + nodes[i].size
            <= nodes.len() && nodes[i].start <= nodes[i].end
    &&& forall|i: int, j: int|
        0 <= i < j < nodes.len() ==> in_order(#[trigger] nodes[i], i, #[trigger] nodes[j], j)
    &&& forall|i: int|
        0 <= i < nodes.len() && is_function(nodes, i) && #[trigger] fields.dom().contains(
            (i, "body"@),
        ) ==> nodes[i].start <= fields[(i, "body"@)] <= nodes[i].end
}

pub open spec fn in_order(first: SyntaxModel, at: int, second: SyntaxModel, later: int) -> bool {
    if later < at + first.size {
        &&& first.start <= second.start
        &&& second.end <= first.end
        &&& later + second.size <= at + first.size
    } else {
        first.end <= second.start
    }
}

/// Whether a `template` introduces one thing: the functions below it are its function,
/// or lie in that.
pub open spec fn templates_are_single(nodes: Seq<SyntaxModel>) -> bool {
    forall|template: int, function: int, other: int|
        0 <= template < function && template < other && nodes[template].kind
            == "template_declaration"@ && children(nodes, template).contains(function)
            && #[trigger] below_template(nodes, template, function, other) ==> function <= other
            < function + nodes[function].size
}

pub open spec fn below_template(
    nodes: Seq<SyntaxModel>,
    template: int,
    function: int,
    other: int,
) -> bool {
    &&& other < template + nodes[template].size
    &&& is_function(nodes, function)
    &&& is_function(nodes, other)
}

spec fn is_placed(nodes: Seq<SyntaxModel>, visit: VisitModel) -> bool {
    &&& 0 <= visit.node < nodes.len()
    &&& match visit.parent {
        Some(parent) => 0 <= parent < visit.node < parent + nodes[parent].size && children(
            nodes,
            parent,
        ).contains(visit.node),
        None => true,
    }
}

spec fn are_apart(nodes: Seq<SyntaxModel>, list: Seq<VisitModel>, from: int, to: int) -> bool {
    &&& forall|i: int|
        0 <= i < list.len() ==> {
            &&& is_placed(nodes, #[trigger] list[i])
            &&& is_function(nodes, list[i].node)
            &&& from <= list[i].node
            &&& list[i].node + nodes[list[i].node].size <= to
        }
    &&& forall|i: int, j: int|
        0 <= i < j < list.len() ==> (#[trigger] list[i]).node + nodes[list[i].node].size <= (
        #[trigger] list[j]).node
}

proof fn lemma_functions_are_apart(
    nodes: Seq<SyntaxModel>,
    fields: Map<(int, Seq<char>), int>,
    visit: VisitModel,
)
    requires
        is_ordered(nodes, fields),
        is_placed(nodes, visit),
    ensures
        are_apart(
            nodes,
            outer_functions(nodes, visit),
            visit.node,
            visit.node + nodes[visit.node].size,
        ),
    decreases MAX_DEPTH + 1 - visit.depth, 0nat,
{
    if visit.depth <= MAX_DEPTH && !is_function(nodes, visit.node) {
        let kids = children(nodes, visit.node);
        assert forall|i: int| 0 <= i < kids.len() implies children(nodes, visit.node).contains(
            kids[i],
        ) by {}
        lemma_functions_among_are_apart(nodes, fields, visit, kids, visit.node + 1);
    }
}

proof fn lemma_functions_among_are_apart(
    nodes: Seq<SyntaxModel>,
    fields: Map<(int, Seq<char>), int>,
    visit: VisitModel,
    kids: Seq<int>,
    at: int,
)
    requires
        is_ordered(nodes, fields),
        is_placed(nodes, visit),
        visit.node < at,
        kids == siblings(nodes, at, visit.node + nodes[visit.node].size),
        forall|i: int|
            0 <= i < kids.len() ==> children(nodes, visit.node).contains(#[trigger] kids[i]),
    ensures
        are_apart(
            nodes,
            outer_functions_among(nodes, visit, kids),
            at,
            visit.node + nodes[visit.node].size,
        ),
    decreases MAX_DEPTH - visit.depth, kids.len(),
{
    let end = visit.node + nodes[visit.node].size;
    if kids.len() > 0 && visit.depth <= MAX_DEPTH {
        assert(kids[0] == at);
        let next = at + nodes[at].size;
        let rest = kids.drop_first();
        assert(rest =~= siblings(nodes, next, end));
        assert(in_order(nodes[visit.node], visit.node, nodes[at], at));
        let kid = child_visit(nodes, visit, at);
        assert(children(nodes, visit.node).contains(kids[0]));
        lemma_functions_are_apart(nodes, fields, kid);
        assert forall|i: int| 0 <= i < rest.len() implies children(nodes, visit.node).contains(
            #[trigger] rest[i],
        ) by {
            assert(rest[i] == kids[i + 1]);
        }
        lemma_functions_among_are_apart(nodes, fields, visit, rest, next);
        let first = outer_functions(nodes, kid);
        let others = outer_functions_among(nodes, visit, rest);
        let all = outer_functions_among(nodes, visit, kids);
        assert(all =~= first + others);
        assert forall|i: int, j: int| 0 <= i < j < all.len() implies (#[trigger] all[i]).node
            + nodes[all[i].node].size <= (#[trigger] all[j]).node by {
            if j < first.len() {
                assert(all[i] == first[i] && all[j] == first[j]);
            } else if i < first.len() {
                assert(all[i] == first[i] && all[j] == others[j - first.len()]);
            } else {
                assert(all[i] == others[i - first.len()] && all[j] == others[j - first.len()]);
            }
        }
        assert forall|i: int| 0 <= i < all.len() implies {
            &&& is_placed(nodes, #[trigger] all[i])
            &&& is_function(nodes, all[i].node)
            &&& at <= all[i].node
            &&& all[i].node + nodes[all[i].node].size <= end
        } by {
            if i < first.len() {
                assert(all[i] == first[i]);
            } else {
                assert(all[i] == others[i - first.len()]);
            }
        }
    }
}

/// In a tree that is ordered as source is, the headers that an analysis lists follow one
/// another without overlapping.
pub proof fn headers_follow_one_another(
    nodes: Seq<SyntaxModel>,
    fields: Map<(int, Seq<char>), int>,
    source: Seq<u8>,
)
    requires
        is_ordered(nodes, fields),
        templates_are_single(nodes),
    ensures
        match analysis(nodes, fields, source) {
            Err(_) => true,
            Ok(all) => {
                &&& forall|i: int|
                    0 <= i < all.len() ==> (#[trigger] all[i]).start <= all[i].end
                &&& forall|i: int, j: int|
                    0 <= i < j < all.len() ==> (#[trigger] all[i]).end <= (#[trigger] all[j]).start
            },
        },
{
    analysis_lists_the_outer_functions(nodes, fields, source);
    match analysis(nodes, fields, source) {
        Err(_) => {},
        Ok(all) => {
            let list = outer_functions(nodes, root_visit());
            lemma_functions_are_apart(nodes, fields, root_visit());
            assert forall|i: int| 0 <= i < all.len() implies (#[trigger] all[i]).start
                <= all[i].end by {
                assert(describes(nodes, fields, list[i], all[i]));
                assert(is_placed(nodes, list[i]));
                if let Some(parent) = list[i].parent {
                    assert(in_order(nodes[parent], parent, nodes[list[i].node], list[i].node));
                }
            }
            assert forall|i: int, j: int| 0 <= i < j < all.len() implies (#[trigger] all[i]).end
                <= (#[trigger] all[j]).start by {
                assert(describes(nodes, fields, list[i], all[i]));
                assert(describes(nodes, fields, list[j], all[j]));
                let first = list[i].node;
                let second = list[j].node;
                assert(is_placed(nodes, list[i]) && is_placed(nodes, list[j]));
                assert(is_function(nodes, first) && is_function(nodes, second));
                assert(first + nodes[first].size <= second);
                assert(in_order(nodes[first], first, nodes[second], second));
                assert(all[i].end <= nodes[first].end);
                if let Some(parent) = list[j].parent {
                    if nodes[parent].kind == "template_declaration"@ {
                        reveal_strlit("template_declaration");
                        reveal_strlit("function_definition");
                        assert("template_declaration"@.len() != "function_definition"@.len());
                        if first > parent {
                            assert(below_template(nodes, parent, second, first));
                        } else {
                            assert(first != parent);
                            assert(in_order(nodes[first], first, nodes[parent], parent));
                            assert(in_order(nodes[parent], parent, nodes[second], second));
                        }
                    }
                }
            }
        },
    }
}

/// No analysis lists more than the limit.
pub proof fn analysis_is_bounded(
    nodes: Seq<SyntaxModel>,
    fields: Map<(int, Seq<char>), int>,
    source: Seq<u8>,
)
    ensures
        match analysis(nodes, fields, source) {
            Err(_) => true,
            Ok(all) => all.len() <= MAX_FUNCTIONS,
        },
{
    lemma_survey_bounded(
        nodes,
        fields,
        source,
        seq![root_visit()],
        MAX_VISITED_NODES as nat,
        Seq::empty(),
    );
}

proof fn lemma_survey_bounded(
    nodes: Seq<SyntaxModel>,
    fields: Map<(int, Seq<char>), int>,
    source: Seq<u8>,
    pending: Seq<VisitModel>,
    remaining: nat,
    found: Seq<DefinitionModel>,
)
    requires
        found.len() <= MAX_FUNCTIONS,
    ensures
        match survey(nodes, fields, source, pending, remaining, found) {
            Err(_) => true,
            Ok(all) => all.len() <= MAX_FUNCTIONS,
        },
    decreases remaining,
{
    if pending.len() > 0 && remaining > 0 && pending.last().depth <= MAX_DEPTH {
        let visit = pending.last();
        let rest = pending.drop_last();
        let left = (remaining - 1) as nat;
        let kids = children(nodes, visit.node);
        if is_function(nodes, visit.node) {
            match define(nodes, fields, source, visit, left) {
                Err(_) => {},
                Ok((definition, left)) => {
                    if left < remaining && found.len() < MAX_FUNCTIONS {
                        lemma_survey_bounded(
                            nodes,
                            fields,
                            source,
                            rest,
                            left,
                            found.push(definition),
                        );
                    }
                },
            }
        } else {
            lemma_survey_bounded(
                nodes,
                fields,
                source,
                rest + visits_below(nodes, visit, kids),
                left,
                found,
            );
        }
    }
}

// ---------------------------------------------------------------------------
// What the list says of a source
// ---------------------------------------------------------------------------

/// Whether a node lies in the subtree of another.
pub open spec fn encloses(nodes: Seq<SyntaxModel>, outer: int, inner: int) -> bool {
    0 <= outer < inner && inner < outer + nodes[outer].size && inner < nodes.len()
}

/// Whether a node lies directly below another: the last that encloses it.
pub open spec fn is_parent(nodes: Seq<SyntaxModel>, parent: int, child: int) -> bool {
    &&& encloses(nodes, parent, child)
    &&& forall|other: int| #[trigger] encloses(nodes, other, child) ==> other <= parent
}

/// Whether a node lies, at any depth, in one of that kind.
pub open spec fn lies_in(nodes: Seq<SyntaxModel>, node: int, kind: Seq<char>) -> bool {
    exists|outer: int| #[trigger] encloses(nodes, outer, node) && nodes[outer].kind == kind
}

/// Whether a node is a function that lies in no other.
pub open spec fn is_outer_function(nodes: Seq<SyntaxModel>, node: int) -> bool {
    &&& 0 <= node < nodes.len()
    &&& nodes[node].kind == "function_definition"@
    &&& !lies_in(nodes, node, "function_definition"@)
}

/// Whether a node is a parameter with a default in the header of a function, and not part of
/// another such parameter.
pub open spec fn is_default(nodes: Seq<SyntaxModel>, function: int, limit: int, part: int) -> bool {
    &&& function <= part < function + nodes[function].size
    &&& nodes[part].kind == "optional_parameter_declaration"@
    &&& nodes[part].start < limit
    &&& forall|other: int|
        function <= other && #[trigger] encloses(nodes, other, part) ==> nodes[other].kind
            != "optional_parameter_declaration"@
}

/// Whether a node is the first `=` directly below a parameter.
pub open spec fn is_equals(nodes: Seq<SyntaxModel>, part: int, equals: int) -> bool {
    &&& is_parent(nodes, part, equals)
    &&& nodes[equals].kind == "="@
    &&& forall|other: int| #[trigger]
        is_parent(nodes, part, other) && nodes[other].kind == "="@ ==> equals <= other
}

/// Whether a byte of a header belongs to a default: to what a parameter has from its `=` on, or
/// to the spaces and tabs right before that.
pub open spec fn is_cut(
    nodes: Seq<SyntaxModel>,
    source: Seq<u8>,
    function: int,
    limit: int,
    at: int,
) -> bool {
    exists|part: int, equals: int|
        {
            &&& #[trigger] is_default(nodes, function, limit, part)
            &&& #[trigger] is_equals(nodes, part, equals)
            &&& nodes[part].start <= at < nodes[part].end
            &&& forall|k: int|
                at <= k < nodes[equals].start ==> #[trigger] source[k] == 32 || source[k] == 9
        }
}

/// Whether `kept` are the places of a header that belong to no default, in order.
pub open spec fn is_kept(
    nodes: Seq<SyntaxModel>,
    source: Seq<u8>,
    function: int,
    start: int,
    end: int,
    kept: Seq<int>,
) -> bool {
    &&& forall|i: int, j: int| 0 <= i < j < kept.len() ==> #[trigger] kept[i] < #[trigger] kept[j]
    &&& forall|at: int| #[trigger]
        kept.contains(at) <==> start <= at < end && !is_cut(nodes, source, function, end, at)
}

/// Whether a text is another without white space in front and without spaces and tabs at the
/// back.
pub open spec fn is_trimmed(text: Seq<char>, trimmed: Seq<char>) -> bool {
    exists|from: int, to: int|
        {
            &&& 0 <= from <= to <= text.len()
            &&& trimmed == #[trigger] text.subrange(from, to)
            &&& forall|i: int| 0 <= i < from ==> is_white(#[trigger] text[i])
            &&& forall|i: int| to <= i < text.len() ==> #[trigger] text[i] == ' ' || text[i] == '\t'
            &&& trimmed.len() > 0 ==> !is_white(trimmed[0]) && trimmed.last() != ' '
                && trimmed.last() != '\t'
        }
}

pub open spec fn bytes_at(source: Seq<u8>, places: Seq<int>) -> Seq<u8> {
    Seq::new(places.len(), |i: int| source[places[i]])
}

/// Whether a signature is the header of a function without its defaults: every byte of the
/// header that belongs to none of them, and no other.
pub open spec fn is_signature(
    nodes: Seq<SyntaxModel>,
    source: Seq<u8>,
    function: int,
    definition: DefinitionModel,
) -> bool {
    exists|kept: Seq<int>|
        {
            &&& #[trigger] is_kept(
                nodes,
                source,
                function,
                definition.start,
                definition.end,
                kept,
            )
            &&& valid_utf8(bytes_at(source, kept))
            &&& is_trimmed(decode_utf8(bytes_at(source, kept)), definition.signature)
        }
}

/// Whether a definition tells of a function what the source says: where its header is, from a
/// `template` right around it on; what it lies in; and its signature.
pub open spec fn tells(
    nodes: Seq<SyntaxModel>,
    fields: Map<(int, Seq<char>), int>,
    source: Seq<u8>,
    function: int,
    definition: DefinitionModel,
) -> bool {
    &&& fields.dom().contains((function, "body"@))
    &&& definition.end == fields[(function, "body"@)]
    &&& forall|parent: int| #[trigger]
        is_parent(nodes, parent, function) && nodes[parent].kind == "template_declaration"@
            ==> definition.start == nodes[parent].start
    &&& (forall|parent: int| #[trigger]
        is_parent(nodes, parent, function) ==> nodes[parent].kind != "template_declaration"@)
        ==> definition.start == nodes[function].start
    &&& definition.context.namespace == lies_in(nodes, function, "namespace_definition"@)
    &&& definition.context.aggregate == (lies_in(nodes, function, "class_specifier"@) || lies_in(
        nodes,
        function,
        "struct_specifier"@,
    ) || lies_in(nodes, function, "union_specifier"@))
    &&& definition.context.explicit_linkage == lies_in(nodes, function, "linkage_specification"@)
    &&& is_signature(nodes, source, function, definition)
}

proof fn lemma_siblings_are(
    nodes: Seq<SyntaxModel>,
    fields: Map<(int, Seq<char>), int>,
    at: int,
    end: int,
)
    requires
        is_ordered(nodes, fields),
        0 <= at,
        end <= nodes.len(),
        forall|k: int| at <= k < end ==> k + (#[trigger] nodes[k]).size <= end,
    ensures
        forall|x: int| #[trigger]
            siblings(nodes, at, end).contains(x) <==> at <= x < end && forall|a: int|
                at <= a < x ==> a + (#[trigger] nodes[a]).size <= x,
        forall|i: int, j: int|
            0 <= i < j < siblings(nodes, at, end).len() ==> #[trigger] siblings(nodes, at, end)[i]
                < #[trigger] siblings(nodes, at, end)[j],
    decreases if at < nodes.len() { nodes.len() - at } else { 0 },
{
    let list = siblings(nodes, at, end);
    if at < end {
        let next = at + nodes[at].size;
        lemma_siblings_are(nodes, fields, next, end);
        let rest = siblings(nodes, next, end);
        assert(list == seq![at] + rest);
        assert forall|x: int| #[trigger] list.contains(x) <==> at <= x < end && forall|a: int|
            at <= a < x ==> a + (#[trigger] nodes[a]).size <= x by {
            if list.contains(x) {
                let i = choose|i: int| 0 <= i < list.len() && list[i] == x;
                if i > 0 {
                    assert(rest[i - 1] == x);
                    assert(rest.contains(x));
                    assert forall|a: int| at <= a < x implies a + (#[trigger] nodes[a]).size <= x by {
                        if at < a && a < next {
                            assert(in_order(nodes[at], at, nodes[a], a));
                        }
                    }
                }
            }
            if at <= x < end && forall|a: int| at <= a < x ==> a + (#[trigger] nodes[a]).size <= x {
                if x == at {
                    assert(list[0] == at);
                } else {
                    assert(at + nodes[at].size <= x);
                    assert(rest.contains(x));
                    let i = choose|i: int| 0 <= i < rest.len() && rest[i] == x;
                    assert(list[i + 1] == x);
                }
            }
        }
        assert forall|i: int, j: int| 0 <= i < j < list.len() implies #[trigger] list[i]
            < #[trigger] list[j] by {
            assert(rest[j - 1] == list[j]);
            assert(rest.contains(list[j]));
            if i > 0 {
                assert(rest[i - 1] == list[i]);
            }
        }
    }
}

proof fn lemma_children_are(
    nodes: Seq<SyntaxModel>,
    fields: Map<(int, Seq<char>), int>,
    parent: int,
)
    requires
        is_ordered(nodes, fields),
        0 <= parent < nodes.len(),
    ensures
        forall|x: int| #[trigger]
            children(nodes, parent).contains(x) <==> is_parent(nodes, parent, x),
        forall|i: int, j: int|
            0 <= i < j < children(nodes, parent).len() ==> #[trigger] children(nodes, parent)[i]
                < #[trigger] children(nodes, parent)[j],
{
    let end = parent + nodes[parent].size;
    assert forall|k: int| parent + 1 <= k < end implies k + (#[trigger] nodes[k]).size <= end by {
        assert(in_order(nodes[parent], parent, nodes[k], k));
    }
    lemma_siblings_are(nodes, fields, parent + 1, end);
    assert forall|x: int| #[trigger] children(nodes, parent).contains(x) <==> is_parent(
        nodes,
        parent,
        x,
    ) by {
        if children(nodes, parent).contains(x) {
            assert forall|other: int| #[trigger] encloses(nodes, other, x) implies other
                <= parent by {
                if other > parent {
                    assert(other + nodes[other].size <= x);
                }
            }
        }
        if is_parent(nodes, parent, x) {
            assert forall|a: int| parent + 1 <= a < x implies a + (#[trigger] nodes[a]).size
                <= x by {
                assert(!encloses(nodes, a, x));
            }
        }
    }
}

/// The nodes directly below a node are its children, each once and from left to right.
pub proof fn children_are_the_nodes_directly_below(
    nodes: Seq<SyntaxModel>,
    fields: Map<(int, Seq<char>), int>,
    parent: int,
)
    requires
        is_ordered(nodes, fields),
        0 <= parent < nodes.len(),
    ensures
        forall|x: int| #[trigger]
            children(nodes, parent).contains(x) <==> is_parent(nodes, parent, x),
        forall|i: int, j: int|
            0 <= i < j < children(nodes, parent).len() ==> #[trigger] children(nodes, parent)[i]
                < #[trigger] children(nodes, parent)[j],
{
    lemma_children_are(nodes, fields, parent);
}

/// What encloses a node is its parent, or encloses that.
proof fn lemma_enclosing(
    nodes: Seq<SyntaxModel>,
    fields: Map<(int, Seq<char>), int>,
    parent: int,
    child: int,
)
    requires
        is_ordered(nodes, fields),
        is_parent(nodes, parent, child),
    ensures
        forall|a: int| #[trigger]
            encloses(nodes, a, child) <==> a == parent || encloses(nodes, a, parent),
{
    assert forall|a: int| #[trigger] encloses(nodes, a, child) <==> a == parent || encloses(
        nodes,
        a,
        parent,
    ) by {
        if encloses(nodes, a, child) && a != parent {
            assert(a < parent);
        }
        if encloses(nodes, a, parent) {
            assert(in_order(nodes[a], a, nodes[parent], parent));
        }
    }
}

proof fn lemma_lies_in(
    nodes: Seq<SyntaxModel>,
    fields: Map<(int, Seq<char>), int>,
    parent: int,
    child: int,
    kind: Seq<char>,
)
    requires
        is_ordered(nodes, fields),
        is_parent(nodes, parent, child),
    ensures
        lies_in(nodes, child, kind) == (nodes[parent].kind == kind || lies_in(nodes, parent, kind)),
{
    lemma_enclosing(nodes, fields, parent, child);
    if lies_in(nodes, child, kind) {
        let a = choose|a: int| #[trigger] encloses(nodes, a, child) && nodes[a].kind == kind;
        assert(a == parent || encloses(nodes, a, parent));
    }
    if lies_in(nodes, parent, kind) {
        let a = choose|a: int| #[trigger] encloses(nodes, a, parent) && nodes[a].kind == kind;
        assert(encloses(nodes, a, child));
    }
    assert(encloses(nodes, parent, child));
}

/// Whether a visit is of a node that lies where the visit says and in no function.
spec fn visit_fits(nodes: Seq<SyntaxModel>, visit: VisitModel) -> bool {
    &&& 0 <= visit.node < nodes.len()
    &&& match visit.parent {
        Some(parent) => is_parent(nodes, parent, visit.node),
        None => visit.node == 0,
    }
    &&& visit.context.namespace == lies_in(nodes, visit.node, "namespace_definition"@)
    &&& visit.context.aggregate == (lies_in(nodes, visit.node, "class_specifier"@) || lies_in(
        nodes,
        visit.node,
        "struct_specifier"@,
    ) || lies_in(nodes, visit.node, "union_specifier"@))
    &&& visit.context.explicit_linkage == lies_in(nodes, visit.node, "linkage_specification"@)
    &&& !lies_in(nodes, visit.node, "function_definition"@)
}

proof fn lemma_kinds_differ()
    ensures
        "namespace_definition"@ != "class_specifier"@,
        "namespace_definition"@ != "struct_specifier"@,
        "namespace_definition"@ != "union_specifier"@,
        "namespace_definition"@ != "linkage_specification"@,
        "class_specifier"@ != "linkage_specification"@,
        "struct_specifier"@ != "linkage_specification"@,
        "union_specifier"@ != "linkage_specification"@,
{
    reveal_strlit("namespace_definition");
    reveal_strlit("class_specifier");
    reveal_strlit("struct_specifier");
    reveal_strlit("union_specifier");
    reveal_strlit("linkage_specification");
    assert("namespace_definition"@.len() == 20);
    assert("class_specifier"@.len() == 15);
    assert("struct_specifier"@.len() == 16);
    assert("union_specifier"@.len() == 15);
    assert("linkage_specification"@.len() == 21);
}

proof fn lemma_child_fits(
    nodes: Seq<SyntaxModel>,
    fields: Map<(int, Seq<char>), int>,
    visit: VisitModel,
    kid: int,
)
    requires
        is_ordered(nodes, fields),
        visit_fits(nodes, visit),
        !is_function(nodes, visit.node),
        is_parent(nodes, visit.node, kid),
    ensures
        visit_fits(nodes, child_visit(nodes, visit, kid)),
{
    lemma_kinds_differ();
    lemma_lies_in(nodes, fields, visit.node, kid, "namespace_definition"@);
    lemma_lies_in(nodes, fields, visit.node, kid, "class_specifier"@);
    lemma_lies_in(nodes, fields, visit.node, kid, "struct_specifier"@);
    lemma_lies_in(nodes, fields, visit.node, kid, "union_specifier"@);
    lemma_lies_in(nodes, fields, visit.node, kid, "linkage_specification"@);
    lemma_lies_in(nodes, fields, visit.node, kid, "function_definition"@);
}

/// Whether nothing at and below a visited node, outside functions, lies too deep.
spec fn is_shallow(nodes: Seq<SyntaxModel>, visit: VisitModel) -> bool
    decreases MAX_DEPTH + 1 - visit.depth, 0nat,
{
    visit.depth <= MAX_DEPTH && (is_function(nodes, visit.node) || are_shallow(
        nodes,
        visit,
        children(nodes, visit.node),
    ))
}

spec fn are_shallow(nodes: Seq<SyntaxModel>, visit: VisitModel, kids: Seq<int>) -> bool
    decreases MAX_DEPTH - visit.depth, kids.len(),
{
    kids.len() == 0 || (visit.depth <= MAX_DEPTH && is_shallow(
        nodes,
        child_visit(nodes, visit, kids[0]),
    ) && are_shallow(nodes, visit, kids.drop_first()))
}

proof fn lemma_shallow_children(nodes: Seq<SyntaxModel>, visit: VisitModel, kids: Seq<int>)
    requires
        visit.depth <= MAX_DEPTH,
        forall|i: int|
            0 <= i < kids.len() ==> is_shallow(nodes, child_visit(nodes, visit, #[trigger] kids[i])),
    ensures
        are_shallow(nodes, visit, kids),
    decreases kids.len(),
{
    if kids.len() > 0 {
        let rest = kids.drop_first();
        assert(is_shallow(nodes, child_visit(nodes, visit, kids[0])));
        assert forall|i: int| 0 <= i < rest.len() implies is_shallow(
            nodes,
            child_visit(nodes, visit, #[trigger] rest[i]),
        ) by {
            assert(rest[i] == kids[i + 1]);
        }
        lemma_shallow_children(nodes, visit, rest);
    }
}

/// Whether a definition is what reading a visited function gave.
spec fn is_read(
    nodes: Seq<SyntaxModel>,
    fields: Map<(int, Seq<char>), int>,
    source: Seq<u8>,
    visit: VisitModel,
    definition: DefinitionModel,
) -> bool {
    exists|remaining: nat|
        match #[trigger] define(nodes, fields, source, visit, remaining) {
            Ok((read, _)) => read == definition,
            Err(_) => false,
        }
}

proof fn lemma_survey_reads(
    nodes: Seq<SyntaxModel>,
    fields: Map<(int, Seq<char>), int>,
    source: Seq<u8>,
    pending: Seq<VisitModel>,
    remaining: nat,
    found: Seq<DefinitionModel>,
)
    ensures
        match survey(nodes, fields, source, pending, remaining, found) {
            Err(_) => true,
            Ok(all) => {
                let expected = outer_of_stack(nodes, pending);
                &&& all.len() == found.len() + expected.len()
                &&& forall|i: int| 0 <= i < found.len() ==> #[trigger] all[i] == found[i]
                &&& forall|i: int|
                    0 <= i < expected.len() ==> #[trigger] is_read(
                        nodes,
                        fields,
                        source,
                        expected[i],
                        all[found.len() + i],
                    )
                &&& forall|i: int|
                    0 <= i < pending.len() ==> is_shallow(nodes, #[trigger] pending[i])
            },
        },
    decreases remaining,
{
    if pending.len() > 0 && remaining > 0 && pending.last().depth <= MAX_DEPTH {
        let visit = pending.last();
        let rest = pending.drop_last();
        let left = (remaining - 1) as nat;
        let kids = children(nodes, visit.node);
        let expected = outer_of_stack(nodes, pending);
        if is_function(nodes, visit.node) {
            match define(nodes, fields, source, visit, left) {
                Err(_) => {},
                Ok((definition, after)) => {
                    if after < remaining {
                        let grown = found.push(definition);
                        lemma_survey_reads(nodes, fields, source, rest, after, grown);
                        match survey(nodes, fields, source, rest, after, grown) {
                            Err(_) => {},
                            Ok(all) => {
                                let others = outer_of_stack(nodes, rest);
                                assert(expected =~= seq![visit] + others);
                                assert(all[found.len() as int] == grown[found.len() as int]);
                                assert(is_read(nodes, fields, source, visit, definition));
                                assert forall|i: int| 0 <= i < found.len() implies #[trigger] all[i]
                                    == found[i] by {
                                    assert(all[i] == grown[i]);
                                }
                                assert forall|i: int|
                                    0 <= i < expected.len() implies #[trigger] is_read(
                                    nodes,
                                    fields,
                                    source,
                                    expected[i],
                                    all[found.len() + i],
                                ) by {
                                    if i > 0 {
                                        assert(expected[i] == others[i - 1]);
                                        assert(is_read(
                                            nodes,
                                            fields,
                                            source,
                                            others[i - 1],
                                            all[grown.len() + (i - 1)],
                                        ));
                                    }
                                }
                                assert forall|i: int| 0 <= i < pending.len() implies is_shallow(
                                    nodes,
                                    #[trigger] pending[i],
                                ) by {
                                    if i < rest.len() {
                                        assert(is_shallow(nodes, rest[i]));
                                    }
                                }
                            },
                        }
                    }
                },
            }
        } else if rest.len() + kids.len() <= left {
            lemma_stack_of_children(nodes, rest, visit, kids);
            let added = visits_below(nodes, visit, kids);
            let stack = rest + added;
            lemma_survey_reads(nodes, fields, source, stack, left, found);
            if survey(nodes, fields, source, stack, left, found) is Ok {
                assert forall|i: int| 0 <= i < kids.len() implies is_shallow(
                    nodes,
                    child_visit(nodes, visit, #[trigger] kids[i]),
                ) by {
                    let at = kids.len() - 1 - i;
                    assert(stack[rest.len() + at] == added[at]);
                    assert(is_shallow(nodes, stack[rest.len() + at]));
                }
                lemma_shallow_children(nodes, visit, kids);
                assert forall|i: int| 0 <= i < pending.len() implies is_shallow(
                    nodes,
                    #[trigger] pending[i],
                ) by {
                    if i < rest.len() {
                        assert(stack[i] == rest[i]);
                        assert(is_shallow(nodes, stack[i]));
                    }
                }
            }
        }
    }
}

/// Whether a list holds the outer functions of a range of nodes, each once and in order.
spec fn lists_outer(nodes: Seq<SyntaxModel>, list: Seq<VisitModel>, from: int, to: int) -> bool {
    &&& forall|i: int|
        0 <= i < list.len() ==> {
            &&& visit_fits(nodes, #[trigger] list[i])
            &&& is_function(nodes, list[i].node)
            &&& from <= list[i].node < to
        }
    &&& forall|i: int, j: int|
        0 <= i < j < list.len() ==> (#[trigger] list[i]).node < (#[trigger] list[j]).node
    &&& forall|x: int|
        from <= x < to && #[trigger] is_outer_function(nodes, x) ==> exists|i: int|
            0 <= i < list.len() && (#[trigger] list[i]).node == x
}

proof fn lemma_lists_outer(
    nodes: Seq<SyntaxModel>,
    fields: Map<(int, Seq<char>), int>,
    visit: VisitModel,
)
    requires
        is_ordered(nodes, fields),
        visit_fits(nodes, visit),
        is_shallow(nodes, visit),
    ensures
        lists_outer(
            nodes,
            outer_functions(nodes, visit),
            visit.node,
            visit.node + nodes[visit.node].size,
        ),
    decreases MAX_DEPTH + 1 - visit.depth, 0nat,
{
    let end = visit.node + nodes[visit.node].size;
    let list = outer_functions(nodes, visit);
    if is_function(nodes, visit.node) {
        assert(list =~= seq![visit]);
        assert forall|x: int| visit.node <= x < end && #[trigger] is_outer_function(
            nodes,
            x,
        ) implies exists|i: int| 0 <= i < list.len() && (#[trigger] list[i]).node == x by {
            if x != visit.node {
                assert(encloses(nodes, visit.node, x));
            }
            assert(list[0].node == visit.node);
        }
    } else {
        let kids = children(nodes, visit.node);
        lemma_children_are(nodes, fields, visit.node);
        assert forall|i: int| 0 <= i < kids.len() implies is_parent(
            nodes,
            visit.node,
            #[trigger] kids[i],
        ) by {
            assert(kids.contains(kids[i]));
        }
        lemma_lists_outer_among(nodes, fields, visit, kids, visit.node + 1);
        assert forall|x: int| visit.node <= x < end && #[trigger] is_outer_function(
            nodes,
            x,
        ) implies exists|i: int| 0 <= i < list.len() && (#[trigger] list[i]).node == x by {
            assert(x != visit.node);
        }
    }
}

proof fn lemma_lists_outer_among(
    nodes: Seq<SyntaxModel>,
    fields: Map<(int, Seq<char>), int>,
    visit: VisitModel,
    kids: Seq<int>,
    at: int,
)
    requires
        is_ordered(nodes, fields),
        visit_fits(nodes, visit),
        visit.depth <= MAX_DEPTH,
        !is_function(nodes, visit.node),
        are_shallow(nodes, visit, kids),
        visit.node < at,
        kids == siblings(nodes, at, visit.node + nodes[visit.node].size),
        forall|i: int| 0 <= i < kids.len() ==> is_parent(nodes, visit.node, #[trigger] kids[i]),
    ensures
        lists_outer(
            nodes,
            outer_functions_among(nodes, visit, kids),
            at,
            visit.node + nodes[visit.node].size,
        ),
    decreases MAX_DEPTH - visit.depth, kids.len(),
{
    let end = visit.node + nodes[visit.node].size;
    let all = outer_functions_among(nodes, visit, kids);
    if kids.len() > 0 {
        assert(kids[0] == at);
        let next = at + nodes[at].size;
        let rest = kids.drop_first();
        assert(rest =~= siblings(nodes, next, end));
        let kid = child_visit(nodes, visit, at);
        lemma_child_fits(nodes, fields, visit, at);
        lemma_lists_outer(nodes, fields, kid);
        assert forall|i: int| 0 <= i < rest.len() implies is_parent(
            nodes,
            visit.node,
            #[trigger] rest[i],
        ) by {
            assert(rest[i] == kids[i + 1]);
        }
        lemma_lists_outer_among(nodes, fields, visit, rest, next);
        assert(in_order(nodes[visit.node], visit.node, nodes[at], at));
        let first = outer_functions(nodes, kid);
        let others = outer_functions_among(nodes, visit, rest);
        assert(all =~= first + others);
        assert forall|i: int| 0 <= i < all.len() implies {
            &&& visit_fits(nodes, #[trigger] all[i])
            &&& is_function(nodes, all[i].node)
            &&& at <= all[i].node < end
        } by {
            if i < first.len() {
                assert(all[i] == first[i]);
            } else {
                assert(all[i] == others[i - first.len()]);
            }
        }
        assert forall|i: int, j: int| 0 <= i < j < all.len() implies (#[trigger] all[i]).node < (
        #[trigger] all[j]).node by {
            if j < first.len() {
                assert(all[i] == first[i] && all[j] == first[j]);
            } else if i < first.len() {
                assert(all[i] == first[i] && all[j] == others[j - first.len()]);
            } else {
                assert(all[i] == others[i - first.len()] && all[j] == others[j - first.len()]);
            }
        }
        assert forall|x: int| at <= x < end && #[trigger] is_outer_function(
            nodes,
            x,
        ) implies exists|i: int| 0 <= i < all.len() && (#[trigger] all[i]).node == x by {
            if x < next {
                let i = choose|i: int| 0 <= i < first.len() && (#[trigger] first[i]).node == x;
                assert(all[i].node == x);
            } else {
                let i = choose|i: int| 0 <= i < others.len() && (#[trigger] others[i]).node == x;
                assert(all[first.len() + i].node == x);
            }
        }
    } else if at < end {
        assert(siblings(nodes, at, end)[0] == at);
    }
}

// ---------------------------------------------------------------------------
// Defaults
// ---------------------------------------------------------------------------

spec fn defaults_in(nodes: Seq<SyntaxModel>, limit: int, part: int, depth: nat) -> Seq<int>
    decreases MAX_DEPTH + 1 - depth, 0nat,
{
    if depth > MAX_DEPTH || nodes[part].start >= limit {
        Seq::empty()
    } else if nodes[part].kind == "optional_parameter_declaration"@ {
        seq![part]
    } else {
        defaults_among(nodes, limit, children(nodes, part), depth)
    }
}

spec fn defaults_among(nodes: Seq<SyntaxModel>, limit: int, kids: Seq<int>, depth: nat) -> Seq<int>
    decreases MAX_DEPTH - depth, kids.len(),
{
    if kids.len() == 0 || depth > MAX_DEPTH {
        Seq::empty()
    } else {
        defaults_in(nodes, limit, kids[0], depth + 1) + defaults_among(
            nodes,
            limit,
            kids.drop_first(),
            depth,
        )
    }
}

spec fn is_within(nodes: Seq<SyntaxModel>, limit: int, part: int, depth: nat) -> bool
    decreases MAX_DEPTH + 1 - depth, 0nat,
{
    depth <= MAX_DEPTH && (nodes[part].start >= limit || nodes[part].kind
        == "optional_parameter_declaration"@ || are_within(
        nodes,
        limit,
        children(nodes, part),
        depth,
    ))
}

spec fn are_within(nodes: Seq<SyntaxModel>, limit: int, kids: Seq<int>, depth: nat) -> bool
    decreases MAX_DEPTH - depth, kids.len(),
{
    kids.len() == 0 || (depth <= MAX_DEPTH && is_within(nodes, limit, kids[0], depth + 1)
        && are_within(nodes, limit, kids.drop_first(), depth))
}

spec fn defaults_of_stack(nodes: Seq<SyntaxModel>, limit: int, pending: Seq<(int, nat)>) -> Seq<int>
    decreases pending.len(),
{
    if pending.len() == 0 {
        Seq::empty()
    } else {
        defaults_in(nodes, limit, pending.last().0, pending.last().1) + defaults_of_stack(
            nodes,
            limit,
            pending.drop_last(),
        )
    }
}

spec fn equals_of(nodes: Seq<SyntaxModel>, part: int) -> Option<int> {
    first_of_kind(nodes, children(nodes, part), "="@)
}

spec fn span_of(nodes: Seq<SyntaxModel>, source: Seq<u8>, part: int) -> (int, int) {
    (
        before_blanks(source, nodes[equals_of(nodes, part)->Some_0].start, nodes[part].start),
        nodes[part].end,
    )
}

spec fn spans_of(nodes: Seq<SyntaxModel>, source: Seq<u8>, list: Seq<int>) -> Seq<(int, int)> {
    list.map_values(|part: int| span_of(nodes, source, part))
}

proof fn lemma_defaults_stack(
    nodes: Seq<SyntaxModel>,
    limit: int,
    rest: Seq<(int, nat)>,
    kids: Seq<int>,
    depth: nat,
)
    requires
        depth <= MAX_DEPTH,
    ensures
        defaults_of_stack(nodes, limit, rest + below(kids, depth)) == defaults_among(
            nodes,
            limit,
            kids,
            depth,
        ) + defaults_of_stack(nodes, limit, rest),
    decreases kids.len(),
{
    let added = below(kids, depth);
    let tail = defaults_of_stack(nodes, limit, rest);
    if kids.len() == 0 {
        assert(rest + added =~= rest);
        assert(defaults_among(nodes, limit, kids, depth) + tail =~= tail);
    } else {
        assert((rest + added).last() == (kids[0], depth + 1));
        assert((rest + added).drop_last() =~= rest + below(kids.drop_first(), depth));
        lemma_defaults_stack(nodes, limit, rest, kids.drop_first(), depth);
        let first = defaults_in(nodes, limit, kids[0], depth + 1);
        let others = defaults_among(nodes, limit, kids.drop_first(), depth);
        assert(first + (others + tail) =~= (first + others) + tail);
    }
}

proof fn lemma_within_children(nodes: Seq<SyntaxModel>, limit: int, kids: Seq<int>, depth: nat)
    requires
        depth <= MAX_DEPTH,
        forall|i: int| 0 <= i < kids.len() ==> is_within(nodes, limit, #[trigger] kids[i], depth + 1),
    ensures
        are_within(nodes, limit, kids, depth),
    decreases kids.len(),
{
    if kids.len() > 0 {
        let rest = kids.drop_first();
        assert(is_within(nodes, limit, kids[0], depth + 1));
        assert forall|i: int| 0 <= i < rest.len() implies is_within(
            nodes,
            limit,
            #[trigger] rest[i],
            depth + 1,
        ) by {
            assert(rest[i] == kids[i + 1]);
        }
        lemma_within_children(nodes, limit, rest, depth);
    }
}

proof fn lemma_defaults_found(
    nodes: Seq<SyntaxModel>,
    source: Seq<u8>,
    limit: int,
    pending: Seq<(int, nat)>,
    remaining: nat,
    cuts: Seq<(int, int)>,
)
    ensures
        match find_defaults(nodes, source, limit, pending, remaining, cuts) {
            Err(_) => true,
            Ok((all, left)) => {
                let list = defaults_of_stack(nodes, limit, pending);
                &&& all == cuts + spans_of(nodes, source, list)
                &&& forall|i: int|
                    0 <= i < list.len() ==> equals_of(nodes, #[trigger] list[i]) is Some
                &&& forall|i: int|
                    0 <= i < pending.len() ==> is_within(
                        nodes,
                        limit,
                        (#[trigger] pending[i]).0,
                        pending[i].1,
                    )
            },
        },
    decreases remaining,
{
    let list = defaults_of_stack(nodes, limit, pending);
    if pending.len() == 0 {
        assert(cuts + spans_of(nodes, source, list) =~= cuts);
    } else if remaining > 0 && pending.last().1 <= MAX_DEPTH {
        let (part, depth) = pending.last();
        let rest = pending.drop_last();
        let left = (remaining - 1) as nat;
        let kids = children(nodes, part);
        let others = defaults_of_stack(nodes, limit, rest);
        if nodes[part].start >= limit {
            lemma_defaults_found(nodes, source, limit, rest, left, cuts);
            assert(list =~= others);
            assert forall|i: int| 0 <= i < rest.len() implies rest[i] == #[trigger] pending[i] by {}
        } else if nodes[part].kind == "optional_parameter_declaration"@ {
            match first_of_kind(nodes, kids, "="@) {
                None => {},
                Some(equals) => {
                    let start = before_blanks(source, nodes[equals].start, nodes[part].start);
                    let more = cuts.push((start, nodes[part].end));
                    lemma_defaults_found(nodes, source, limit, rest, left, more);
                    assert(list =~= seq![part] + others);
                    assert(more + spans_of(nodes, source, others) =~= cuts + spans_of(
                        nodes,
                        source,
                        list,
                    ));
                    if find_defaults(nodes, source, limit, rest, left, more) is Ok {
                        assert forall|i: int| 0 <= i < list.len() implies equals_of(
                            nodes,
                            #[trigger] list[i],
                        ) is Some by {
                            if i > 0 {
                                assert(list[i] == others[i - 1]);
                            }
                        }
                        assert forall|i: int| 0 <= i < rest.len() implies rest[i]
                            == #[trigger] pending[i] by {}
                    }
                },
            }
        } else if rest.len() + kids.len() <= left {
            let added = below(kids, depth);
            let stack = rest + added;
            lemma_defaults_stack(nodes, limit, rest, kids, depth);
            lemma_defaults_found(nodes, source, limit, stack, left, cuts);
            assert(list == defaults_of_stack(nodes, limit, stack));
            if find_defaults(nodes, source, limit, stack, left, cuts) is Ok {
                assert forall|i: int| 0 <= i < kids.len() implies is_within(
                    nodes,
                    limit,
                    #[trigger] kids[i],
                    depth + 1,
                ) by {
                    let at = kids.len() - 1 - i;
                    assert(stack[rest.len() + at] == added[at]);
                    assert(is_within(
                        nodes,
                        limit,
                        stack[rest.len() + at].0,
                        stack[rest.len() + at].1,
                    ));
                }
                lemma_within_children(nodes, limit, kids, depth);
                assert forall|i: int| 0 <= i < pending.len() implies is_within(
                    nodes,
                    limit,
                    (#[trigger] pending[i]).0,
                    pending[i].1,
                ) by {
                    if i < rest.len() {
                        assert(stack[i] == rest[i]);
                        assert(is_within(nodes, limit, stack[i].0, stack[i].1));
                    }
                }
            }
        }
    }
}

/// Whether a node lies in a function's subtree and in no parameter with a default there.
spec fn is_free(nodes: Seq<SyntaxModel>, function: int, part: int) -> bool {
    &&& function <= part < function + nodes[function].size
    &&& forall|other: int|
        function <= other && #[trigger] encloses(nodes, other, part) ==> nodes[other].kind
            != "optional_parameter_declaration"@
}

spec fn lists_defaults(
    nodes: Seq<SyntaxModel>,
    function: int,
    limit: int,
    list: Seq<int>,
    from: int,
    to: int,
) -> bool {
    &&& forall|i: int|
        0 <= i < list.len() ==> is_default(nodes, function, limit, #[trigger] list[i]) && from
            <= list[i] < to
    &&& forall|x: int|
        from <= x < to && #[trigger] is_default(nodes, function, limit, x) ==> list.contains(x)
}

proof fn lemma_lists_defaults(
    nodes: Seq<SyntaxModel>,
    fields: Map<(int, Seq<char>), int>,
    function: int,
    limit: int,
    part: int,
    depth: nat,
)
    requires
        is_ordered(nodes, fields),
        0 <= function < nodes.len(),
        is_free(nodes, function, part),
        is_within(nodes, limit, part, depth),
    ensures
        lists_defaults(
            nodes,
            function,
            limit,
            defaults_in(nodes, limit, part, depth),
            part,
            part + nodes[part].size,
        ),
    decreases MAX_DEPTH + 1 - depth, 0nat,
{
    let end = part + nodes[part].size;
    let list = defaults_in(nodes, limit, part, depth);
    if nodes[part].start >= limit {
        assert forall|x: int| part <= x < end && #[trigger] is_default(
            nodes,
            function,
            limit,
            x,
        ) implies list.contains(x) by {
            if x > part {
                assert(in_order(nodes[part], part, nodes[x], x));
            }
        }
    } else if nodes[part].kind == "optional_parameter_declaration"@ {
        assert(list =~= seq![part]);
        assert forall|x: int| part <= x < end && #[trigger] is_default(
            nodes,
            function,
            limit,
            x,
        ) implies list.contains(x) by {
            if x > part {
                assert(encloses(nodes, part, x));
            }
            assert(list[0] == part);
        }
    } else {
        let kids = children(nodes, part);
        lemma_children_are(nodes, fields, part);
        assert forall|i: int| 0 <= i < kids.len() implies is_parent(
            nodes,
            part,
            #[trigger] kids[i],
        ) by {
            assert(kids.contains(kids[i]));
        }
        lemma_lists_defaults_among(nodes, fields, function, limit, part, kids, depth, part + 1);
    }
}

proof fn lemma_lists_defaults_among(
    nodes: Seq<SyntaxModel>,
    fields: Map<(int, Seq<char>), int>,
    function: int,
    limit: int,
    part: int,
    kids: Seq<int>,
    depth: nat,
    at: int,
)
    requires
        is_ordered(nodes, fields),
        0 <= function < nodes.len(),
        is_free(nodes, function, part),
        nodes[part].kind != "optional_parameter_declaration"@,
        depth <= MAX_DEPTH,
        are_within(nodes, limit, kids, depth),
        part < at,
        kids == siblings(nodes, at, part + nodes[part].size),
        forall|i: int| 0 <= i < kids.len() ==> is_parent(nodes, part, #[trigger] kids[i]),
    ensures
        lists_defaults(
            nodes,
            function,
            limit,
            defaults_among(nodes, limit, kids, depth),
            at,
            part + nodes[part].size,
        ),
    decreases MAX_DEPTH - depth, kids.len(),
{
    let end = part + nodes[part].size;
    let all = defaults_among(nodes, limit, kids, depth);
    if kids.len() > 0 {
        assert(kids[0] == at);
        let next = at + nodes[at].size;
        let rest = kids.drop_first();
        assert(rest =~= siblings(nodes, next, end));
        lemma_enclosing(nodes, fields, part, at);
        if function < part {
            assert(in_order(nodes[function], function, nodes[part], part));
        }
        assert(in_order(nodes[part], part, nodes[at], at));
        assert(is_free(nodes, function, at));
        lemma_lists_defaults(nodes, fields, function, limit, at, depth + 1);
        assert forall|i: int| 0 <= i < rest.len() implies is_parent(
            nodes,
            part,
            #[trigger] rest[i],
        ) by {
            assert(rest[i] == kids[i + 1]);
        }
        lemma_lists_defaults_among(nodes, fields, function, limit, part, rest, depth, next);
        let first = defaults_in(nodes, limit, at, depth + 1);
        let others = defaults_among(nodes, limit, rest, depth);
        assert(all =~= first + others);
        assert forall|i: int| 0 <= i < all.len() implies is_default(
            nodes,
            function,
            limit,
            #[trigger] all[i],
        ) && at <= all[i] < end by {
            if i < first.len() {
                assert(all[i] == first[i]);
            } else {
                assert(all[i] == others[i - first.len()]);
            }
        }
        assert forall|x: int| at <= x < end && #[trigger] is_default(
            nodes,
            function,
            limit,
            x,
        ) implies all.contains(x) by {
            if x < next {
                assert(first.contains(x));
                let i = choose|i: int| 0 <= i < first.len() && first[i] == x;
                assert(all[i] == x);
            } else {
                assert(others.contains(x));
                let i = choose|i: int| 0 <= i < others.len() && others[i] == x;
                assert(all[first.len() + i] == x);
            }
        }
    } else if at < end {
        assert(siblings(nodes, at, end)[0] == at);
    }
}

proof fn lemma_first_of_kind(nodes: Seq<SyntaxModel>, among: Seq<int>, kind: Seq<char>)
    ensures
        match first_of_kind(nodes, among, kind) {
            Some(found) => exists|i: int|
                {
                    &&& 0 <= i < among.len()
                    &&& #[trigger] among[i] == found
                    &&& nodes[found].kind == kind
                    &&& forall|j: int| 0 <= j < i ==> nodes[#[trigger] among[j]].kind != kind
                },
            None => forall|j: int| 0 <= j < among.len() ==> nodes[#[trigger] among[j]].kind != kind,
        },
    decreases among.len(),
{
    if among.len() > 0 {
        if nodes[among[0]].kind == kind {
            assert(among[0] == first_of_kind(nodes, among, kind)->Some_0);
        } else {
            let rest = among.drop_first();
            lemma_first_of_kind(nodes, rest, kind);
            match first_of_kind(nodes, rest, kind) {
                Some(found) => {
                    let i = choose|i: int|
                        {
                            &&& 0 <= i < rest.len()
                            &&& #[trigger] rest[i] == found
                            &&& nodes[found].kind == kind
                            &&& forall|j: int| 0 <= j < i ==> nodes[#[trigger] rest[j]].kind != kind
                        };
                    assert(among[i + 1] == found);
                    assert forall|j: int| 0 <= j < i + 1 implies nodes[#[trigger] among[j]].kind
                        != kind by {
                        if j > 0 {
                            assert(rest[j - 1] == among[j]);
                        }
                    }
                },
                None => {
                    assert forall|j: int| 0 <= j < among.len() implies nodes[#[trigger] among[j]].kind
                        != kind by {
                        if j > 0 {
                            assert(rest[j - 1] == among[j]);
                        }
                    }
                },
            }
        }
    }
}

proof fn lemma_equals_is(
    nodes: Seq<SyntaxModel>,
    fields: Map<(int, Seq<char>), int>,
    part: int,
)
    requires
        is_ordered(nodes, fields),
        0 <= part < nodes.len(),
        equals_of(nodes, part) is Some,
    ensures
        is_equals(nodes, part, equals_of(nodes, part)->Some_0),
        forall|other: int| #[trigger]
            is_equals(nodes, part, other) ==> other == equals_of(nodes, part)->Some_0,
{
    let kids = children(nodes, part);
    let found = equals_of(nodes, part)->Some_0;
    lemma_children_are(nodes, fields, part);
    lemma_first_of_kind(nodes, kids, "="@);
    let i = choose|i: int|
        {
            &&& 0 <= i < kids.len()
            &&& #[trigger] kids[i] == found
            &&& nodes[found].kind == "="@
            &&& forall|j: int| 0 <= j < i ==> nodes[#[trigger] kids[j]].kind != "="@
        };
    assert(kids.contains(found));
    assert forall|other: int| #[trigger] is_parent(nodes, part, other) && nodes[other].kind
        == "="@ implies found <= other by {
        assert(kids.contains(other));
        let j = choose|j: int| 0 <= j < kids.len() && kids[j] == other;
        if j > i {
            assert(kids[i] < kids[j]);
        } else if j < i {
            assert(nodes[kids[j]].kind != "="@);
        }
    }
}

proof fn lemma_blanks(source: Seq<u8>, at: int, floor: int)
    requires
        0 <= floor <= at <= source.len(),
    ensures
        floor <= before_blanks(source, at, floor) <= at,
        forall|i: int|
            floor <= i <= at ==> (i >= before_blanks(source, at, floor) <==> #[trigger] all_blank(
                source,
                i,
                at,
            )),
    decreases at - floor,
{
    let found = before_blanks(source, at, floor);
    if at > floor && (source[at - 1] == 32 || source[at - 1] == 9) {
        lemma_blanks(source, at - 1, floor);
        assert forall|i: int| floor <= i <= at implies (i >= found <==> #[trigger] all_blank(
            source,
            i,
            at,
        )) by {
            if i < at {
                assert(i >= found <==> all_blank(source, i, at - 1));
                if all_blank(source, i, at) {
                    assert forall|k: int| i <= k < at - 1 implies #[trigger] source[k] == 32
                        || source[k] == 9 by {}
                }
            }
        }
    } else {
        assert forall|i: int| floor <= i <= at implies (i >= found <==> #[trigger] all_blank(
            source,
            i,
            at,
        )) by {
            if i < at && all_blank(source, i, at) {
                assert(source[at - 1] == 32 || source[at - 1] == 9);
            }
        }
    }
}

spec fn all_blank(source: Seq<u8>, from: int, to: int) -> bool {
    forall|k: int| from <= k < to ==> #[trigger] source[k] == 32 || source[k] == 9
}

spec fn kept_places(at: int, to: int, cuts: Seq<(int, int)>) -> Seq<int>
    decreases cuts.len(),
{
    if cuts.len() == 0 {
        Seq::new((to - at) as nat, |i: int| at + i)
    } else {
        Seq::new((cuts[0].0 - at) as nat, |i: int| at + i) + kept_places(
            cuts[0].1,
            to,
            cuts.drop_first(),
        )
    }
}

spec fn in_span(cut: (int, int), at: int) -> bool {
    cut.0 <= at < cut.1
}

proof fn lemma_retained(source: Seq<u8>, at: int, to: int, cuts: Seq<(int, int)>)
    requires
        0 <= at <= to <= source.len(),
        retained(source, at, to, cuts) is Some,
    ensures
        retained(source, at, to, cuts) == Some(bytes_at(source, kept_places(at, to, cuts))),
        forall|i: int, j: int|
            0 <= i < j < kept_places(at, to, cuts).len() ==> #[trigger] kept_places(at, to, cuts)[i]
                < #[trigger] kept_places(at, to, cuts)[j],
        forall|place: int| #[trigger]
            kept_places(at, to, cuts).contains(place) <==> at <= place < to && forall|i: int|
                0 <= i < cuts.len() ==> !in_span(#[trigger] cuts[i], place),
        forall|i: int| 0 <= i < cuts.len() ==> at <= (#[trigger] cuts[i]).0 <= cuts[i].1 <= to,
    decreases cuts.len(),
{
    let places = kept_places(at, to, cuts);
    if cuts.len() == 0 {
        assert(bytes_at(source, places) =~= source.subrange(at, to));
        assert forall|place: int| #[trigger] places.contains(place) <==> at <= place < to
            && forall|i: int| 0 <= i < cuts.len() ==> !in_span(#[trigger] cuts[i], place) by {
            if at <= place < to {
                assert(places[place - at] == place);
            }
        }
    } else {
        let (start, end) = cuts[0];
        let rest = cuts.drop_first();
        lemma_retained(source, end, to, rest);
        let front = Seq::new((start - at) as nat, |i: int| at + i);
        let others = kept_places(end, to, rest);
        assert(places == front + others);
        assert(bytes_at(source, places) =~= source.subrange(at, start) + bytes_at(source, others));
        assert forall|i: int| 0 <= i < cuts.len() implies at <= (#[trigger] cuts[i]).0 <= cuts[i].1
            <= to by {
            if i > 0 {
                assert(rest[i - 1] == cuts[i]);
            }
        }
        assert forall|i: int, j: int| 0 <= i < j < places.len() implies #[trigger] places[i]
            < #[trigger] places[j] by {
            if j >= front.len() {
                assert(others.contains(others[j - front.len()]));
                if i >= front.len() {
                    assert(others[i - front.len()] < others[j - front.len()]);
                }
            }
        }
        assert forall|place: int| #[trigger] places.contains(place) <==> at <= place < to
            && forall|i: int| 0 <= i < cuts.len() ==> !in_span(#[trigger] cuts[i], place) by {
            if places.contains(place) {
                let k = choose|k: int| 0 <= k < places.len() && places[k] == place;
                if k < front.len() {
                    assert forall|i: int| 0 <= i < cuts.len() implies !in_span(
                        #[trigger] cuts[i],
                        place,
                    ) by {
                        if i > 0 {
                            assert(rest[i - 1] == cuts[i]);
                            assert(end <= rest[i - 1].0);
                        }
                    }
                } else {
                    assert(others[k - front.len()] == place);
                    assert(others.contains(place));
                    assert forall|i: int| 0 <= i < cuts.len() implies !in_span(
                        #[trigger] cuts[i],
                        place,
                    ) by {
                        if i > 0 {
                            assert(!in_span(rest[i - 1], place));
                        }
                    }
                }
            }
            if at <= place < to && forall|i: int|
                0 <= i < cuts.len() ==> !in_span(#[trigger] cuts[i], place) {
                assert(!in_span(cuts[0], place));
                if place < start {
                    assert(places[place - at] == place);
                } else {
                    assert forall|i: int| 0 <= i < rest.len() implies !in_span(
                        #[trigger] rest[i],
                        place,
                    ) by {
                        assert(rest[i] == cuts[i + 1]);
                    }
                    assert(others.contains(place));
                    let k = choose|k: int| 0 <= k < others.len() && others[k] == place;
                    assert(places[front.len() + k] == place);
                }
            }
        }
    }
}

proof fn lemma_trimmed(text: Seq<char>)
    ensures
        is_trimmed(text, without_back_blanks(trimmed_front(text))),
{
    lemma_trimmed_front(text);
    let front = trimmed_front(text);
    let from = text.len() - front.len();
    lemma_back_blanks(front);
    let trimmed = without_back_blanks(front);
    let to = from + trimmed.len();
    assert(trimmed =~= text.subrange(from, to));
    assert forall|i: int| to <= i < text.len() implies #[trigger] text[i] == ' ' || text[i]
        == '\t' by {
        assert(text[i] == front[i - from]);
    }
    if trimmed.len() > 0 {
        assert(trimmed[0] == front[0]);
    }
}

proof fn lemma_trimmed_front(text: Seq<char>)
    ensures
        trimmed_front(text).len() <= text.len(),
        trimmed_front(text) == text.skip(text.len() - trimmed_front(text).len()),
        forall|i: int|
            0 <= i < text.len() - trimmed_front(text).len() ==> is_white(#[trigger] text[i]),
        trimmed_front(text).len() > 0 ==> !is_white(trimmed_front(text)[0]),
    decreases text.len(),
{
    if text.len() > 0 && is_white(text[0]) {
        let rest = text.drop_first();
        lemma_trimmed_front(rest);
        let front = trimmed_front(text);
        assert(front =~= text.skip(text.len() - front.len()));
        assert forall|i: int| 0 <= i < text.len() - front.len() implies is_white(
            #[trigger] text[i],
        ) by {
            if i > 0 {
                assert(rest[i - 1] == text[i]);
            }
        }
    } else {
        assert(text.skip(0) =~= text);
    }
}

proof fn lemma_back_blanks(text: Seq<char>)
    ensures
        without_back_blanks(text).len() <= text.len(),
        without_back_blanks(text) == text.take(without_back_blanks(text).len() as int),
        forall|i: int|
            without_back_blanks(text).len() <= i < text.len() ==> #[trigger] text[i] == ' '
                || text[i] == '\t',
        without_back_blanks(text).len() > 0 ==> without_back_blanks(text).last() != ' '
            && without_back_blanks(text).last() != '\t',
    decreases text.len(),
{
    let kept = without_back_blanks(text);
    if text.len() > 0 && (text.last() == ' ' || text.last() == '\t') {
        let front = text.drop_last();
        lemma_back_blanks(front);
        assert(kept =~= text.take(kept.len() as int));
        assert forall|i: int| kept.len() <= i < text.len() implies #[trigger] text[i] == ' '
            || text[i] == '\t' by {
            if i < front.len() {
                assert(front[i] == text[i]);
            }
        }
    } else {
        assert(text.take(text.len() as int) =~= text);
    }
}

proof fn lemma_read_tells(
    nodes: Seq<SyntaxModel>,
    fields: Map<(int, Seq<char>), int>,
    source: Seq<u8>,
    visit: VisitModel,
    definition: DefinitionModel,
)
    requires
        is_ordered(nodes, fields),
        starts_are_places(nodes),
        visit_fits(nodes, visit),
        is_function(nodes, visit.node),
        is_read(nodes, fields, source, visit, definition),
    ensures
        tells(nodes, fields, source, visit.node, definition),
{
    let function = visit.node;
    let remaining = choose|remaining: nat|
        match #[trigger] define(nodes, fields, source, visit, remaining) {
            Ok((read, _)) => read == definition,
            Err(_) => false,
        };
    let end = fields[(function, "body"@)];
    let start = header_start(nodes, visit);
    let pending = seq![(function, visit.depth)];
    lemma_defaults_found(nodes, source, end, pending, remaining, Seq::empty());
    let cuts = find_defaults(nodes, source, end, pending, remaining, Seq::empty())->Ok_0.0;
    let list = defaults_in(nodes, end, function, visit.depth);
    assert(pending.drop_last() =~= Seq::<(int, nat)>::empty());
    assert(defaults_of_stack(nodes, end, pending.drop_last()) =~= Seq::<int>::empty());
    assert(defaults_of_stack(nodes, end, pending) =~= list);
    assert(cuts =~= spans_of(nodes, source, list));
    assert(is_within(nodes, end, pending[0].0, pending[0].1));
    assert(is_free(nodes, function, function)) by {
        assert forall|other: int| function <= other && #[trigger] encloses(
            nodes,
            other,
            function,
        ) implies nodes[other].kind != "optional_parameter_declaration"@ by {}
    }
    lemma_lists_defaults(nodes, fields, function, end, function, visit.depth);
    lemma_retained(source, start, end, cuts);
    let kept = kept_places(start, end, cuts);
    assert forall|at: int| start <= at < end implies (is_cut(nodes, source, function, end, at)
        <==> !(#[trigger] kept.contains(at))) by {
        if is_cut(nodes, source, function, end, at) {
            let (part, equals) = choose|part: int, equals: int|
                {
                    &&& #[trigger] is_default(nodes, function, end, part)
                    &&& #[trigger] is_equals(nodes, part, equals)
                    &&& nodes[part].start <= at < nodes[part].end
                    &&& forall|k: int|
                        at <= k < nodes[equals].start ==> #[trigger] source[k] == 32 || source[k]
                            == 9
                };
            assert(list.contains(part));
            let i = choose|i: int| 0 <= i < list.len() && list[i] == part;
            assert(cuts[i] == span_of(nodes, source, part));
            assert(equals_of(nodes, list[i]) is Some);
            lemma_equals_is(nodes, fields, part);
            assert(equals == equals_of(nodes, part)->Some_0);
            assert(in_order(nodes[part], part, nodes[equals], equals));
            assert(nodes[equals].start <= source.len());
            lemma_part_starts(nodes, fields, source, part, i, cuts, start, end);
            lemma_blanks(source, nodes[equals].start, nodes[part].start);
            if at <= nodes[equals].start {
                assert(all_blank(source, at, nodes[equals].start));
            }
            assert(in_span(cuts[i], at));
        }
        if !kept.contains(at) {
            let i = choose|i: int| 0 <= i < cuts.len() && in_span(#[trigger] cuts[i], at);
            let part = list[i];
            assert(cuts[i] == span_of(nodes, source, part));
            assert(equals_of(nodes, list[i]) is Some);
            assert(is_default(nodes, function, end, part));
            lemma_equals_is(nodes, fields, part);
            let equals = equals_of(nodes, part)->Some_0;
            assert(in_order(nodes[part], part, nodes[equals], equals));
            lemma_part_starts(nodes, fields, source, part, i, cuts, start, end);
            lemma_blanks(source, nodes[equals].start, nodes[part].start);
            if at <= nodes[equals].start {
                assert(all_blank(source, at, nodes[equals].start));
            }
            assert(is_cut(nodes, source, function, end, at));
        }
    }
    assert forall|at: int| #[trigger] kept.contains(at) <==> start <= at < end && !is_cut(
        nodes,
        source,
        function,
        end,
        at,
    ) by {}
    assert(is_kept(nodes, source, function, start, end, kept));
    lemma_trimmed(decode_utf8(bytes_at(source, kept)));
    assert forall|parent: int| #[trigger] is_parent(nodes, parent, function) implies visit.parent
        == Some(parent) by {
        match visit.parent {
            Some(own) => {
                assert(encloses(nodes, own, function));
                assert(encloses(nodes, parent, function));
            },
            None => {},
        }
    }
    assert(definition.start == start && definition.end == end);
    assert(is_kept(nodes, source, function, definition.start, definition.end, kept));
    assert(is_signature(nodes, source, function, definition));
    match visit.parent {
        Some(own) => {
            assert(is_parent(nodes, own, function));
        },
        None => {},
    }
}

proof fn lemma_part_starts(
    nodes: Seq<SyntaxModel>,
    fields: Map<(int, Seq<char>), int>,
    source: Seq<u8>,
    part: int,
    i: int,
    cuts: Seq<(int, int)>,
    start: int,
    end: int,
)
    requires
        is_ordered(nodes, fields),
        starts_are_places(nodes),
        0 <= part < nodes.len(),
        equals_of(nodes, part) is Some,
        0 <= i < cuts.len(),
        cuts[i] == span_of(nodes, source, part),
        0 <= start <= end <= source.len(),
        forall|k: int| 0 <= k < cuts.len() ==> start <= (#[trigger] cuts[k]).0 <= cuts[k].1 <= end,
    ensures
        0 <= nodes[part].start <= nodes[equals_of(nodes, part)->Some_0].start <= source.len(),
{
    lemma_equals_is(nodes, fields, part);
    let equals = equals_of(nodes, part)->Some_0;
    assert(encloses(nodes, part, equals));
    assert(in_order(nodes[part], part, nodes[equals], equals));
    assert(nodes[equals].start <= nodes[equals].end);
}

/// An analysis lists exactly the functions that lie in no other function, in the order of the
/// source. Of each it tells where its header is, what it lies in, and as its signature every
/// byte of the header that belongs to no default of a parameter, and no other.
pub proof fn definitions_are_the_outer_functions(
    nodes: Seq<SyntaxModel>,
    fields: Map<(int, Seq<char>), int>,
    source: Seq<u8>,
)
    requires
        is_ordered(nodes, fields),
        starts_are_places(nodes),
        nodes.len() > 0 ==> nodes[0].size == nodes.len(),
    ensures
        match analysis(nodes, fields, source) {
            Err(_) => true,
            Ok(all) => exists|functions: Seq<int>|
                {
                    &&& functions.len() == all.len()
                    &&& #[trigger] are_outer_functions(nodes, functions)
                    &&& forall|i: int|
                        0 <= i < all.len() ==> tells(
                            nodes,
                            fields,
                            source,
                            functions[i],
                            #[trigger] all[i],
                        )
                },
        },
{
    let pending = seq![root_visit()];
    lemma_survey_reads(
        nodes,
        fields,
        source,
        pending,
        MAX_VISITED_NODES as nat,
        Seq::empty(),
    );
    assert(pending.drop_last() =~= Seq::<VisitModel>::empty());
    assert(outer_of_stack(nodes, pending.drop_last()) =~= Seq::<VisitModel>::empty());
    assert(outer_of_stack(nodes, pending) =~= outer_functions(nodes, root_visit()));
    match analysis(nodes, fields, source) {
        Err(_) => {},
        Ok(all) => {
            let list = outer_functions(nodes, root_visit());
            assert(is_shallow(nodes, pending[0]));
            lemma_lists_outer(nodes, fields, root_visit());
            let functions = list.map_values(|visit: VisitModel| visit.node);
            assert forall|i: int| 0 <= i < all.len() implies tells(
                nodes,
                fields,
                source,
                functions[i],
                #[trigger] all[i],
            ) by {
                assert(is_read(nodes, fields, source, list[i], all[0 + i]));
                assert(visit_fits(nodes, list[i]));
                lemma_read_tells(nodes, fields, source, list[i], all[i]);
            }
            assert forall|x: int| #[trigger] functions.contains(x) <==> is_outer_function(
                nodes,
                x,
            ) by {
                if functions.contains(x) {
                    let i = choose|i: int| 0 <= i < functions.len() && functions[i] == x;
                    assert(visit_fits(nodes, list[i]));
                }
                if is_outer_function(nodes, x) {
                    let i = choose|i: int| 0 <= i < list.len() && (#[trigger] list[i]).node == x;
                    assert(functions[i] == x);
                }
            }
            assert(are_outer_functions(nodes, functions));
        },
    }
}

/// Whether a list holds every outer function, each once and in order, and nothing else.
pub open spec fn are_outer_functions(nodes: Seq<SyntaxModel>, functions: Seq<int>) -> bool {
    &&& forall|i: int, j: int|
        0 <= i < j < functions.len() ==> #[trigger] functions[i] < #[trigger] functions[j]
    &&& forall|x: int| #[trigger] functions.contains(x) <==> is_outer_function(nodes, x)
}

/// Whether no node starts before the source.
pub open spec fn starts_are_places(nodes: Seq<SyntaxModel>) -> bool {
    forall|i: int| 0 <= i < nodes.len() ==> (#[trigger] nodes[i]).start >= 0
}

// ---------------------------------------------------------------------------
// When there is an answer
// ---------------------------------------------------------------------------

/// Whether `depth` tells how many nodes enclose each, none of them more than allowed.
pub open spec fn is_depth(nodes: Seq<SyntaxModel>, depth: spec_fn(int) -> nat) -> bool {
    &&& depth(0) == 0
    &&& forall|parent: int, child: int| #[trigger]
        is_parent(nodes, parent, child) ==> depth(child) == depth(parent) + 1
    &&& forall|node: int| 0 <= node < nodes.len() ==> #[trigger] depth(node) <= MAX_DEPTH
}

/// Whether a function can be told of: it has a body, its header is whole characters of the
/// source, and no parameter in it has a default.
pub open spec fn is_plain(
    nodes: Seq<SyntaxModel>,
    fields: Map<(int, Seq<char>), int>,
    source: Seq<u8>,
    function: int,
) -> bool {
    &&& fields.dom().contains((function, "body"@))
    &&& forall|part: int| !#[trigger] is_default(nodes, function, fields[(function, "body"@)], part)
    &&& forall|start: int|
        (start == nodes[function].start || exists|parent: int| #[trigger]
            is_parent(nodes, parent, function) && nodes[parent].start == start)
            ==> #[trigger] is_text_range(source, start, fields[(function, "body"@)]) && valid_utf8(
            source.subrange(start, fields[(function, "body"@)]),
        )
}

spec fn size_of_all(nodes: Seq<SyntaxModel>, list: Seq<int>) -> int
    decreases list.len(),
{
    if list.len() == 0 {
        0
    } else {
        size_of_all(nodes, list.drop_last()) + nodes[list.last()].size
    }
}

proof fn lemma_size_concat(nodes: Seq<SyntaxModel>, first: Seq<int>, second: Seq<int>)
    ensures
        size_of_all(nodes, first + second) == size_of_all(nodes, first) + size_of_all(
            nodes,
            second,
        ),
    decreases second.len(),
{
    if second.len() == 0 {
        assert(first + second =~= first);
    } else {
        assert((first + second).drop_last() =~= first + second.drop_last());
        lemma_size_concat(nodes, first, second.drop_last());
    }
}

proof fn lemma_size_of_one(nodes: Seq<SyntaxModel>, node: int)
    ensures
        size_of_all(nodes, seq![node]) == nodes[node].size,
{
    reveal_with_fuel(size_of_all, 2);
    assert(seq![node].drop_last() =~= Seq::<int>::empty());
}

proof fn lemma_sizes_count(nodes: Seq<SyntaxModel>, list: Seq<int>)
    requires
        forall|i: int| 0 <= i < list.len() ==> nodes[#[trigger] list[i]].size >= 1,
    ensures
        size_of_all(nodes, list) >= list.len(),
    decreases list.len(),
{
    if list.len() > 0 {
        let front = list.drop_last();
        assert forall|i: int| 0 <= i < front.len() implies nodes[#[trigger] front[i]].size >= 1 by {
            assert(front[i] == list[i]);
        }
        lemma_sizes_count(nodes, front);
        assert(nodes[list[list.len() - 1]].size >= 1);
    }
}

proof fn lemma_size_of_siblings(
    nodes: Seq<SyntaxModel>,
    fields: Map<(int, Seq<char>), int>,
    at: int,
    end: int,
)
    requires
        is_ordered(nodes, fields),
        0 <= at <= end <= nodes.len(),
        forall|k: int| at <= k < end ==> k + (#[trigger] nodes[k]).size <= end,
    ensures
        size_of_all(nodes, siblings(nodes, at, end)) == end - at,
    decreases end - at,
{
    if at < end {
        let next = at + nodes[at].size;
        lemma_size_of_siblings(nodes, fields, next, end);
        let rest = siblings(nodes, next, end);
        lemma_size_concat(nodes, seq![at], rest);
        lemma_size_of_one(nodes, at);
    }
}

proof fn lemma_size_of_children(
    nodes: Seq<SyntaxModel>,
    fields: Map<(int, Seq<char>), int>,
    parent: int,
)
    requires
        is_ordered(nodes, fields),
        0 <= parent < nodes.len(),
    ensures
        size_of_all(nodes, children(nodes, parent)) == nodes[parent].size - 1,
        forall|i: int|
            0 <= i < children(nodes, parent).len() ==> is_parent(
                nodes,
                parent,
                #[trigger] children(nodes, parent)[i],
            ),
{
    let end = parent + nodes[parent].size;
    assert forall|k: int| parent + 1 <= k < end implies k + (#[trigger] nodes[k]).size <= end by {
        assert(in_order(nodes[parent], parent, nodes[k], k));
    }
    lemma_size_of_siblings(nodes, fields, parent + 1, end);
    lemma_children_are(nodes, fields, parent);
    assert forall|i: int| 0 <= i < children(nodes, parent).len() implies is_parent(
        nodes,
        parent,
        #[trigger] children(nodes, parent)[i],
    ) by {
        assert(children(nodes, parent).contains(children(nodes, parent)[i]));
    }
}

proof fn lemma_size_reversed(nodes: Seq<SyntaxModel>, list: Seq<int>)
    ensures
        size_of_all(nodes, Seq::new(list.len(), |i: int| list[list.len() - 1 - i])) == size_of_all(
            nodes,
            list,
        ),
    decreases list.len(),
{
    let reversed = Seq::new(list.len(), |i: int| list[list.len() - 1 - i]);
    if list.len() > 0 {
        let front = list.drop_last();
        let turned = Seq::new(front.len(), |i: int| front[front.len() - 1 - i]);
        lemma_size_reversed(nodes, front);
        assert(reversed =~= seq![list.last()] + turned);
        lemma_size_concat(nodes, seq![list.last()], turned);
        lemma_size_of_one(nodes, list.last());
    }
}

spec fn stack_fits(
    nodes: Seq<SyntaxModel>,
    depth: spec_fn(int) -> nat,
    pending: Seq<(int, nat)>,
) -> bool {
    forall|i: int|
        0 <= i < pending.len() ==> 0 <= (#[trigger] pending[i]).0 < nodes.len() && pending[i].1
            == depth(pending[i].0)
}

spec fn parts_of(pending: Seq<(int, nat)>) -> Seq<int> {
    pending.map_values(|entry: (int, nat)| entry.0)
}

proof fn lemma_no_defaults(
    nodes: Seq<SyntaxModel>,
    fields: Map<(int, Seq<char>), int>,
    source: Seq<u8>,
    depth: spec_fn(int) -> nat,
    function: int,
    limit: int,
    pending: Seq<(int, nat)>,
    remaining: nat,
)
    requires
        is_ordered(nodes, fields),
        is_depth(nodes, depth),
        0 <= function < nodes.len(),
        forall|part: int| !#[trigger] is_default(nodes, function, limit, part),
        stack_fits(nodes, depth, pending),
        forall|i: int| 0 <= i < pending.len() ==> is_free(nodes, function, (#[trigger] pending[i]).0),
        size_of_all(nodes, parts_of(pending)) <= remaining,
    ensures
        match find_defaults(nodes, source, limit, pending, remaining, Seq::empty()) {
            Ok((cuts, left)) => cuts == Seq::<(int, int)>::empty() && left >= remaining
                - size_of_all(nodes, parts_of(pending)),
            Err(_) => false,
        },
    decreases remaining,
{
    if pending.len() > 0 {
        let (part, own) = pending.last();
        let rest = pending.drop_last();
        assert(pending[pending.len() - 1] == (part, own));
        assert(parts_of(pending).drop_last() =~= parts_of(rest));
        assert(parts_of(pending).last() == part);
        assert forall|i: int| 0 <= i < rest.len() implies #[trigger] rest[i] == pending[i] by {}
        let fitting = parts_of(rest);
        assert forall|i: int| 0 <= i < fitting.len() implies nodes[#[trigger] fitting[i]].size
            >= 1 by {
            assert(0 <= rest[i].0 < nodes.len());
        }
        lemma_sizes_count(nodes, fitting);
        assert(depth(part) <= MAX_DEPTH);
        let left = (remaining - 1) as nat;
        let kids = children(nodes, part);
        if nodes[part].start >= limit {
            lemma_no_defaults(nodes, fields, source, depth, function, limit, rest, left);
        } else {
            assert(is_free(nodes, function, pending[pending.len() - 1].0));
            assert(!is_default(nodes, function, limit, part));
            assert(nodes[part].kind != "optional_parameter_declaration"@);
            lemma_size_of_children(nodes, fields, part);
            let added = below(kids, own);
            let stack = rest + added;
            assert(parts_of(added) =~= Seq::new(kids.len(), |i: int| kids[kids.len() - 1 - i]));
            lemma_size_reversed(nodes, kids);
            assert(parts_of(stack) =~= parts_of(rest) + parts_of(added));
            lemma_size_concat(nodes, parts_of(rest), parts_of(added));
            assert forall|i: int| 0 <= i < kids.len() implies nodes[#[trigger] kids[i]].size
                >= 1 by {
                assert(is_parent(nodes, part, kids[i]));
            }
            lemma_sizes_count(nodes, kids);
            assert forall|i: int| 0 <= i < stack.len() implies 0 <= (#[trigger] stack[i]).0
                < nodes.len() && stack[i].1 == depth(stack[i].0) && is_free(
                nodes,
                function,
                stack[i].0,
            ) by {
                if i < rest.len() {
                    assert(stack[i] == pending[i]);
                } else {
                    let kid = kids[kids.len() - 1 - (i - rest.len())];
                    assert(stack[i] == (kid, own + 1));
                    assert(is_parent(nodes, part, kid));
                    lemma_enclosing(nodes, fields, part, kid);
                    if function < part {
                        assert(in_order(nodes[function], function, nodes[part], part));
                    }
                }
            }
            lemma_no_defaults(nodes, fields, source, depth, function, limit, stack, left);
        }
    }
}

proof fn lemma_plain_is_read(
    nodes: Seq<SyntaxModel>,
    fields: Map<(int, Seq<char>), int>,
    source: Seq<u8>,
    depth: spec_fn(int) -> nat,
    visit: VisitModel,
    remaining: nat,
)
    requires
        is_ordered(nodes, fields),
        is_depth(nodes, depth),
        visit_fits(nodes, visit),
        visit.depth == depth(visit.node),
        is_plain(nodes, fields, source, visit.node),
        nodes[visit.node].size <= remaining,
    ensures
        match define(nodes, fields, source, visit, remaining) {
            Ok((_, left)) => remaining - nodes[visit.node].size <= left <= remaining,
            Err(_) => false,
        },
{
    let function = visit.node;
    let end = fields[(function, "body"@)];
    let pending = seq![(function, visit.depth)];
    assert(parts_of(pending) =~= seq![function]);
    lemma_size_of_one(nodes, function);
    assert(is_free(nodes, function, function)) by {
        assert forall|other: int| function <= other && #[trigger] encloses(
            nodes,
            other,
            function,
        ) implies nodes[other].kind != "optional_parameter_declaration"@ by {}
    }
    lemma_no_defaults(nodes, fields, source, depth, function, end, pending, remaining);
    lemma_defaults_left(nodes, source, end, pending, remaining, Seq::empty());
    let start = header_start(nodes, visit);
    match visit.parent {
        Some(parent) => {
            assert(is_parent(nodes, parent, function));
        },
        None => {},
    }
    assert(is_text_range(source, start, end));
}

spec fn visits_fit(
    nodes: Seq<SyntaxModel>,
    depth: spec_fn(int) -> nat,
    pending: Seq<VisitModel>,
) -> bool {
    forall|i: int|
        0 <= i < pending.len() ==> visit_fits(nodes, #[trigger] pending[i]) && pending[i].depth
            == depth(pending[i].node)
}

spec fn visited(pending: Seq<VisitModel>) -> Seq<int> {
    pending.map_values(|visit: VisitModel| visit.node)
}

proof fn lemma_survey_answers(
    nodes: Seq<SyntaxModel>,
    fields: Map<(int, Seq<char>), int>,
    source: Seq<u8>,
    depth: spec_fn(int) -> nat,
    pending: Seq<VisitModel>,
    remaining: nat,
    found: Seq<DefinitionModel>,
)
    requires
        is_ordered(nodes, fields),
        is_depth(nodes, depth),
        forall|x: int| #[trigger]
            is_outer_function(nodes, x) ==> is_plain(nodes, fields, source, x),
        visits_fit(nodes, depth, pending),
        2 * size_of_all(nodes, visited(pending)) <= remaining,
        found.len() + size_of_all(nodes, visited(pending)) <= MAX_FUNCTIONS,
    ensures
        survey(nodes, fields, source, pending, remaining, found) is Ok,
    decreases remaining,
{
    if pending.len() > 0 {
        let visit = pending.last();
        let rest = pending.drop_last();
        let node = visit.node;
        assert(pending[pending.len() - 1] == visit);
        assert(visited(pending).drop_last() =~= visited(rest));
        assert(visited(pending).last() == node);
        assert forall|i: int| 0 <= i < rest.len() implies #[trigger] rest[i] == pending[i] by {}
        let others = visited(rest);
        assert forall|i: int| 0 <= i < others.len() implies nodes[#[trigger] others[i]].size
            >= 1 by {
            assert(visit_fits(nodes, rest[i]));
        }
        lemma_sizes_count(nodes, others);
        assert(depth(node) <= MAX_DEPTH);
        let left = (remaining - 1) as nat;
        let kids = children(nodes, node);
        if is_function(nodes, node) {
            assert(is_outer_function(nodes, node));
            lemma_plain_is_read(nodes, fields, source, depth, visit, left);
            let (definition, after) = define(nodes, fields, source, visit, left)->Ok_0;
            lemma_survey_answers(
                nodes,
                fields,
                source,
                depth,
                rest,
                after,
                found.push(definition),
            );
        } else {
            lemma_size_of_children(nodes, fields, node);
            let added = visits_below(nodes, visit, kids);
            let stack = rest + added;
            assert(visited(added) =~= Seq::new(kids.len(), |i: int| kids[kids.len() - 1 - i]));
            lemma_size_reversed(nodes, kids);
            assert(visited(stack) =~= visited(rest) + visited(added));
            lemma_size_concat(nodes, visited(rest), visited(added));
            assert forall|i: int| 0 <= i < kids.len() implies nodes[#[trigger] kids[i]].size
                >= 1 by {
                assert(is_parent(nodes, node, kids[i]));
            }
            lemma_sizes_count(nodes, kids);
            assert forall|i: int| 0 <= i < stack.len() implies visit_fits(
                nodes,
                #[trigger] stack[i],
            ) && stack[i].depth == depth(stack[i].node) by {
                if i < rest.len() {
                    assert(stack[i] == pending[i]);
                } else {
                    let kid = kids[kids.len() - 1 - (i - rest.len())];
                    assert(stack[i] == child_visit(nodes, visit, kid));
                    assert(is_parent(nodes, node, kid));
                    lemma_child_fits(nodes, fields, visit, kid);
                }
            }
            lemma_survey_answers(nodes, fields, source, depth, stack, left, found);
        }
    }
}

/// Source without syntax errors, with as many nodes as there may be functions and nothing
/// nested deeper than allowed, has an answer if each of its outer functions can be told of.
pub proof fn plain_sources_have_an_answer(
    nodes: Seq<SyntaxModel>,
    fields: Map<(int, Seq<char>), int>,
    source: Seq<u8>,
    depth: spec_fn(int) -> nat,
)
    requires
        is_ordered(nodes, fields),
        is_depth(nodes, depth),
        0 < nodes.len() <= 16_384,
        nodes[0].size == nodes.len(),
        !nodes[0].error,
        forall|x: int| #[trigger]
            is_outer_function(nodes, x) ==> is_plain(nodes, fields, source, x),
    ensures
        analysis(nodes, fields, source) is Ok,
{
    let pending = seq![root_visit()];
    assert(visited(pending) =~= seq![0int]);
    lemma_size_of_one(nodes, 0int);
    assert(visits_fit(nodes, depth, pending));
    lemma_survey_answers(
        nodes,
        fields,
        source,
        depth,
        pending,
        MAX_VISITED_NODES as nat,
        Seq::empty(),
    );
}

/// Without a whole tree there is no answer.
pub proof fn syntax_errors_are_refused(
    nodes: Seq<SyntaxModel>,
    fields: Map<(int, Seq<char>), int>,
    source: Seq<u8>,
)
    ensures
        nodes.len() == 0 || nodes[0].error ==> analysis(nodes, fields, source)
            == Err::<Seq<DefinitionModel>, AnalysisError>(AnalysisError::InvalidSyntax),
{
}

/// What is shown of definitions is what they hold.
pub proof fn definitions_are_shown_as_they_are(list: Seq<FunctionDefinition>, at: int)
    requires
        0 <= at < list.len(),
    ensures
        definition_models(list).len() == list.len(),
        definition_models(list)[at].signature == list[at].signature@,
        definition_models(list)[at].start == list[at].source_range.start,
        definition_models(list)[at].end == list[at].source_range.end,
        definition_models(list)[at].context == list[at].context,
{
}

/// A source of more than eight mebibytes is refused unread.
pub proof fn large_sources_are_refused(
    source: &str,
    found: Result<Vec<FunctionDefinition>, AnalysisError>,
)
    requires
        call_ensures(analyze_cpp, (source,), found),
        encode_utf8(source@).len() > 8 * 1024 * 1024,
    ensures
        found == Err::<Vec<FunctionDefinition>, AnalysisError>(AnalysisError::InputTooLarge),
{
}

} // verus!
