//! What the document takes on trust from the incremental parser.
//!
//! A syntax tree, a parser and a query are opaque to the verifier. The
//! document carries them and hands them to the parser's functions; nothing
//! in its proofs rests on what they hold. The one thing named is the tree
//! that an edit makes of a tree, so that the document can say which edits
//! its tree was told of.
use crate::edit::EditDescriptor;
use crate::render::TokenStyle;
use crate::rope::rope_text;
use crate::text::{byte_len, lemma_byte_len_concat, lemma_encode_len, lemma_encode_subrange};
use vstd::math::{max, min};
use vstd::prelude::*;
use vstd::slice::slice_subrange;
use vstd::utf8::encode_utf8;

verus! {

/// `tree_sitter::Tree`, a syntax tree.
#[verifier::external_type_specification]
#[verifier::external_body]
pub struct ExTree(tree_sitter::Tree);

/// `tree_sitter::Parser`, which makes syntax trees of texts.
#[verifier::external_type_specification]
#[verifier::external_body]
pub struct ExParser(tree_sitter::Parser);

/// `tree_sitter::Query`, a set of patterns that capture nodes of a tree.
#[verifier::external_type_specification]
#[verifier::external_body]
pub struct ExQuery(tree_sitter::Query);

/// The tree that `Tree::edit` makes of a tree when it is told of an edit.
pub uninterp spec fn edited_tree(tree: tree_sitter::Tree, edit: EditDescriptor) -> tree_sitter::Tree;

/// `Tree::edit`: the tree is told of a change of the text it was parsed from,
/// so that the next parse can reuse what the change left alone. What the tree
/// becomes depends on the tree and the edit alone; no more is claimed of it.
#[verifier::external_body]
pub(crate) fn apply_edit(tree: &mut tree_sitter::Tree, edit: &EditDescriptor)
    ensures
        *final(tree) == edited_tree(*old(tree), *edit),
{
    let start = tree_sitter::Point::new(edit.start_point.row, edit.start_point.column);
    let old_end = tree_sitter::Point::new(edit.old_end_point.row, edit.old_end_point.column);
    let new_end = tree_sitter::Point::new(edit.new_end_point.row, edit.new_end_point.column);
    tree.edit(&tree_sitter::InputEdit {
        start_byte: edit.start_byte,
        old_end_byte: edit.old_end_byte,
        new_end_byte: edit.new_end_byte,
        start_position: start,
        old_end_position: old_end,
        new_end_position: new_end,
    })
}

/// The parser and the highlight query of one language.
pub struct Language {
    highlights: tree_sitter::Query,
    parser: tree_sitter::Parser,
}

impl Language {
    /// The highlight query that the language holds.
    pub closed spec fn held_query(self) -> tree_sitter::Query {
        self.highlights
    }

    /// The parser that the language holds.
    pub closed spec fn held_parser(self) -> tree_sitter::Parser {
        self.parser
    }

    /// A language of a query that captures what is to be highlighted, each
    /// capture under the name of its syntax class, and a parser that was
    /// given the language's grammar.
    pub fn new(highlights: tree_sitter::Query, parser: tree_sitter::Parser) -> (language: Language)
        ensures
            language.held_query() == highlights,
            language.held_parser() == parser,
    {
        Language { highlights, parser }
    }

    /// The highlight query.
    pub fn highlights(&self) -> (query: &tree_sitter::Query)
        ensures
            *query == self.held_query(),
    {
        &self.highlights
    }

    /// The parser, to parse with. The language holds the parser as the
    /// borrower leaves it, and the same query as before.
    pub fn parser(&mut self) -> (parser: &mut tree_sitter::Parser)
        ensures
            *parser == old(self).held_parser(),
            final(self).held_parser() == *final(parser),
            final(self).held_query() == old(self).held_query(),
    {
        &mut self.parser
    }
}

/// The bytes `from..to` of `bytes`, each bound brought into the slice first,
/// and none where the range is reversed.
pub fn clamped_slice(bytes: &[u8], from: usize, to: usize) -> (part: &[u8])
    ensures
        part@ == bytes@.subrange(
            min(from as int, bytes@.len() as int),
            max(min(from as int, bytes@.len() as int), min(to as int, bytes@.len() as int)),
        ),
{
    let from = from.min(bytes.len());
    let to = to.min(bytes.len()).max(from);
    slice_subrange(bytes, from, to)
}

/// A run of the bytes of the rope's text that starts at offset `byte`: all
/// that the rope stores in one piece from there on. It is empty only at or
/// past the end of the text. This is how a parser reads the text.
pub fn bytes_from(rope: &ropey::Rope, byte: usize) -> (bytes: &[u8])
    ensures
        byte >= byte_len(rope_text(*rope)) ==> bytes@.len() == 0,
        byte < byte_len(rope_text(*rope)) ==> {
            &&& bytes@.len() > 0
            &&& byte + bytes@.len() <= byte_len(rope_text(*rope))
            &&& bytes@ == encode_utf8(rope_text(*rope)).subrange(byte as int, byte + bytes@.len())
        },
{
    let len_bytes = rope.len_bytes();
    let chunk = rope.chunk_at_byte(byte.min(len_bytes));
    let all = chunk.0.as_bytes();
    proof {
        let text = rope_text(*rope);
        lemma_encode_subrange(text, chunk.2 as int, chunk.2 + chunk.0@.len());
        lemma_encode_len(text);
        lemma_encode_len(chunk.0@);
        assert(text.take(chunk.2 + chunk.0@.len()) =~= text.take(chunk.2 as int) + chunk.0@);
        lemma_byte_len_concat(text.take(chunk.2 as int), chunk.0@);
    }
    if byte >= len_bytes {
        slice_subrange(all, all.len(), all.len())
    } else {
        let rest = slice_subrange(all, byte - chunk.1, all.len());
        assert(rest@ =~= encode_utf8(rope_text(*rope)).subrange(byte as int, byte + rest@.len()));
        rest
    }
}

/// `Parser::parse_with`: the parser reads the text piece by piece, from the
/// byte offsets it chooses, and returns a syntax tree, or nothing if it has no
/// language or was stopped. Nothing is claimed of the tree.
#[verifier::external_body]
pub(crate) fn parse_text(
    parser: &mut tree_sitter::Parser,
    rope: &ropey::Rope,
    old_tree: Option<&tree_sitter::Tree>,
) -> Option<tree_sitter::Tree> {
    parser.parse_with(&mut |byte, _| bytes_from(rope, byte), old_tree)
}

/// The captures that a new query cursor finds for a query in a tree of a
/// text: those of every match, match by match in the order in which the
/// cursor finds them, each as the byte range of the captured node under the
/// capture's name.
pub uninterp spec fn captured_spans(
    query: tree_sitter::Query,
    tree: tree_sitter::Tree,
    text: Seq<char>,
) -> Seq<TokenStyle<'static>>;

/// `QueryCursor::matches`, on a new cursor with the rope's text for the
/// query's tests on text: the captures of every match of the query in the
/// tree, match by match in the order in which the cursor finds them, each as
/// the byte range of the captured node under the capture's name. Which they
/// are depends on the query, the tree and the text alone; no more is claimed
/// of them.
#[verifier::external_body]
pub(crate) fn highlight_captures<'a>(
    query: &'a tree_sitter::Query,
    tree: &tree_sitter::Tree,
    rope: &ropey::Rope,
) -> (spans: Vec<TokenStyle<'a>>)
    ensures
        spans@ == captured_spans(*query, *tree, rope_text(*rope)),
{
    let text = String::from(rope);
    let bytes = text.as_bytes();
    let names = query.capture_names();
    tree_sitter::QueryCursor::new()
        .matches(query, tree.root_node(), |node: tree_sitter::Node| {
            core::iter::once(clamped_slice(bytes, node.start_byte(), node.end_byte()))
        })
        .flat_map(|found| found.captures.to_vec())
        .map(|cap| TokenStyle::new(cap.node.start_byte(), cap.node.end_byte(), names[cap.index as usize]))
        .collect()
}

} // verus!
