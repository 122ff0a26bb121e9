//! A plain model of a concrete syntax tree of a `.firm` file.

use vstd::prelude::*;
use vstd::string::StringSliceAdditionalSpecFns;
use vstd::utf8::*;

use crate::text::{count_byte, substring};

verus! {

/// A position in a source file: zero-based row and zero-based byte column.
#[derive(Clone, Copy, Debug)]
pub struct Point {
    pub row: usize,
    pub column: usize,
}

/// One node of a concrete syntax tree.
///
/// `kind` is the grammar's name for the node (such as `field`, `=` or
/// `identifier`). `is_error` marks a node the parser could not fit into the
/// grammar, `is_missing` a node the parser inserted because the grammar
/// expected it, and `has_error` tells whether the node or anything below it
/// is such a node.
#[derive(Debug)]
pub struct SyntaxNode {
    pub kind: String,
    pub is_error: bool,
    pub is_missing: bool,
    pub has_error: bool,
    pub start_byte: usize,
    pub end_byte: usize,
    pub start_position: Point,
    pub end_position: Point,
    pub children: Vec<SyntaxNode>,
}

/// The UTF-8 bytes of a string.
pub open spec fn text_bytes(s: &String) -> Seq<u8> {
    encode_utf8(s@)
}

/// Whether some child of `n` is marked `has_error`.
pub open spec fn some_child_has_error(n: SyntaxNode) -> bool {
    exists|i: int| 0 <= i < n.children@.len() && #[trigger] n.children@[i].has_error
}

/// The byte offset where the line holding byte offset `b` starts: just
/// after the last newline before `b`, or 0 when there is none.
pub open spec fn line_start(bytes: Seq<u8>, b: int) -> int
    decreases b,
{
    if b <= 0 {
        0
    } else if bytes[b - 1] == 10u8 {
        b
    } else {
        line_start(bytes, b - 1)
    }
}

/// `p` is the position of byte offset `b` in `bytes`: its row is the number
/// of newlines before `b`, its column the number of bytes since the start of
/// that line.
pub open spec fn position_of(bytes: Seq<u8>, b: int, p: Point) -> bool {
    &&& p.row == count_byte(bytes.take(b), 10u8)
    &&& p.column == b - line_start(bytes, b)
}

/// A node is well formed over the source bytes `bytes` when its byte range
/// lies in the source on character boundaries, its start and end positions
/// are those of its start and end bytes (so the start column does not exceed
/// the start byte, the node does not end on an earlier row than it starts,
/// and on a single row it does not end before its start column), its
/// `has_error` flag agrees with its subtree, and all of its children are
/// well formed.
pub open spec fn node_wf(n: SyntaxNode, bytes: Seq<u8>) -> bool
    decreases n,
{
    &&& n.start_byte <= n.end_byte <= bytes.len()
    &&& position_of(bytes, n.start_byte as int, n.start_position)
    &&& position_of(bytes, n.end_byte as int, n.end_position)
    &&& n.start_position.column <= n.start_byte
    &&& n.start_position.row <= n.end_position.row
    &&& n.start_position.row == n.end_position.row ==> n.start_position.column
        <= n.end_position.column
    &&& is_char_boundary(bytes, n.start_byte as int)
    &&& is_char_boundary(bytes, n.end_byte as int)
    &&& n.has_error == (n.is_error || n.is_missing || some_child_has_error(n))
    &&& forall|i: int| 0 <= i < n.children@.len() ==> node_wf(#[trigger] n.children@[i], bytes)
}

/// The row of byte offset `b` and the offset where its line starts.
fn position_at(bytes: &[u8], b: usize) -> (r: (usize, usize))
    requires
        b <= bytes@.len(),
    ensures
        r.0 == count_byte(bytes@.take(b as int), 10u8),
        r.1 == line_start(bytes@, b as int),
        r.1 <= b,
{
    let mut row: usize = 0;
    let mut start: usize = 0;
    let mut i: usize = 0;
    while i < b
        invariant
            i <= b <= bytes@.len(),
            row == count_byte(bytes@.take(i as int), 10u8),
            row <= i,
            start == line_start(bytes@, i as int),
            start <= i,
        decreases b - i,
    {
        proof {
            assert(bytes@.take(i + 1).drop_last() =~= bytes@.take(i as int));
        }
        if bytes[i] == 10u8 {
            row = row + 1;
            start = i + 1;
        }
        i = i + 1;
    }
    (row, start)
}

/// Whether `p` is the position of byte offset `b`.
fn is_position_of(bytes: &[u8], b: usize, p: Point) -> (r: bool)
    requires
        b <= bytes@.len(),
    ensures
        r == position_of(bytes@, b as int, p),
{
    let (row, start) = position_at(bytes, b);
    row == p.row && b - start == p.column
}

/// The index of the first child of kind `k` at or after index `i`.
pub open spec fn find_kind_from(cs: Seq<SyntaxNode>, k: Seq<char>, i: int) -> Option<int>
    decreases cs.len() - i,
{
    if i < 0 || i >= cs.len() {
        None
    } else if cs[i].kind@ == k {
        Some(i)
    } else {
        find_kind_from(cs, k, i + 1)
    }
}

/// The first child of `n` whose kind is `k`.
pub open spec fn first_child_of_kind(n: SyntaxNode, k: Seq<char>) -> Option<SyntaxNode> {
    match find_kind_from(n.children@, k, 0) {
        Some(i) => Some(n.children@[i]),
        None => None,
    }
}

/// Whether `n` has a child of kind `k`.
pub open spec fn has_child_of_kind(n: SyntaxNode, k: Seq<char>) -> bool {
    first_child_of_kind(n, k) is Some
}

/// `find_kind_from` finds the first child of the kind from `i` on.
pub proof fn lemma_find_kind_from(cs: Seq<SyntaxNode>, k: Seq<char>, i: int)
    requires
        0 <= i,
    ensures
        find_kind_from(cs, k, i) matches Some(j) ==> i <= j < cs.len() && cs[j].kind@ == k
            && forall|m: int| i <= m < j ==> cs[m].kind@ != k,
        find_kind_from(cs, k, i) is None ==> forall|m: int| i <= m < cs.len() ==> cs[m].kind@ != k,
    decreases cs.len() - i,
{
    if i < cs.len() && cs[i].kind@ != k {
        lemma_find_kind_from(cs, k, i + 1);
    }
}

/// The bytes a node covers.
pub open spec fn node_text(n: SyntaxNode, bytes: Seq<u8>) -> Seq<u8> {
    bytes.subrange(n.start_byte as int, n.end_byte as int)
}

/// The text of the first child of kind `k`, if there is one.
pub open spec fn child_text(n: SyntaxNode, k: Seq<char>, bytes: Seq<u8>) -> Option<Seq<u8>> {
    match first_child_of_kind(n, k) {
        Some(c) => Some(node_text(c, bytes)),
        None => None,
    }
}

/// The bytes of an optional string.
pub open spec fn opt_bytes(o: Option<&str>) -> Option<Seq<u8>> {
    match o {
        Some(s) => Some(s.spec_bytes()),
        None => None,
    }
}

/// The children of a well-formed node are well formed, and so is the first
/// child of any kind.
pub proof fn lemma_child_wf(n: SyntaxNode, k: Seq<char>, bytes: Seq<u8>)
    requires
        node_wf(n, bytes),
    ensures
        forall|i: int| 0 <= i < n.children@.len() ==> node_wf(#[trigger] n.children@[i], bytes),
        first_child_of_kind(n, k) matches Some(c) ==> node_wf(c, bytes),
{
    lemma_find_kind_from(n.children@, k, 0);
}

/// The text a well-formed node covers in `source`.
pub fn get_node_text<'a>(node: &SyntaxNode, source: &'a String) -> (t: &'a str)
    requires
        node_wf(*node, text_bytes(source)),
    ensures
        t.spec_bytes() == node_text(*node, text_bytes(source)),
{
    substring(source.as_str(), node.start_byte, node.end_byte)
}

/// Whether two strings hold the same bytes.
pub fn str_eq(a: &str, b: &str) -> (r: bool)
    ensures
        r == (a.spec_bytes() == b.spec_bytes()),
        r == (a@ == b@),
{
    proof {
        encode_utf8_decode_utf8(a@);
        encode_utf8_decode_utf8(b@);
    }
    let x = a.as_bytes();
    let y = b.as_bytes();
    if x.len() != y.len() {
        return false;
    }
    let mut i: usize = 0;
    while i < x.len()
        invariant
            x@ == a.spec_bytes(),
            y@ == b.spec_bytes(),
            x@.len() == y@.len(),
            i <= x@.len(),
            forall|j: int| 0 <= j < i ==> x@[j] == y@[j],
        decreases x@.len() - i,
    {
        if x[i] != y[i] {
            assert(x@[i as int] != y@[i as int]);
            return false;
        }
        i = i + 1;
    }
    proof {
        assert(x@ =~= y@);
    }
    true
}

/// Whether a node and everything below it is well formed over the bytes of `s`.
pub fn check_node(n: &SyntaxNode, s: &str) -> (r: bool)
    ensures
        r == node_wf(*n, s.spec_bytes()),
    decreases n,
{
    let bytes = s.as_bytes();
    let len = bytes.len();
    if !(n.start_byte <= n.end_byte && n.end_byte <= len) {
        return false;
    }
    if !is_position_of(bytes, n.start_byte, n.start_position) || !is_position_of(
        bytes,
        n.end_byte,
        n.end_position,
    ) {
        return false;
    }
    if n.start_position.column > n.start_byte || n.start_position.row > n.end_position.row {
        return false;
    }
    if n.start_position.row == n.end_position.row && n.start_position.column > n.end_position.column {
        return false;
    }
    if !s.is_char_boundary(n.start_byte) || !s.is_char_boundary(n.end_byte) {
        return false;
    }
    let mut any_child_error = false;
    let mut i: usize = 0;
    while i < n.children.len()
        invariant
            i <= n.children@.len(),
            forall|j: int| 0 <= j < i ==> node_wf(#[trigger] n.children@[j], s.spec_bytes()),
            any_child_error == exists|j: int| 0 <= j < i && #[trigger] n.children@[j].has_error,
        decreases n.children@.len() - i,
    {
        if !check_node(&n.children[i], s) {
            return false;
        }
        if n.children[i].has_error {
            any_child_error = true;
        }
        i = i + 1;
    }
    n.has_error == (n.is_error || n.is_missing || any_child_error)
}

impl SyntaxNode {
    /// Whether this node's kind is `k`.
    pub fn kind_is(&self, k: &str) -> (r: bool)
        ensures
            r == (self.kind@ == k@),
    {
        self.kind == String::from_str(k)
    }

    /// The first child of the given kind, if any.
    pub fn find_child_of_kind(&self, k: &str) -> (r: Option<&SyntaxNode>)
        ensures
            r matches Some(c) ==> first_child_of_kind(*self, k@) == Some(*c),
            r is None ==> first_child_of_kind(*self, k@) is None,
    {
        let mut i: usize = 0;
        while i < self.children.len()
            invariant
                i <= self.children@.len(),
                find_kind_from(self.children@, k@, 0) == find_kind_from(self.children@, k@, i as int),
            decreases self.children@.len() - i,
        {
            if self.children[i].kind_is(k) {
                return Some(&self.children[i]);
            }
            i = i + 1;
        }
        None
    }

    /// Whether some child has the given kind.
    pub fn has_child_kind(&self, k: &str) -> (r: bool)
        ensures
            r == has_child_of_kind(*self, k@),
    {
        self.find_child_of_kind(k).is_some()
    }
}

} // verus!
