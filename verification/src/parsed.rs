//! A parsed `.firm` source file and views of its entity, field and schema blocks.

use vstd::prelude::*;
use vstd::string::StringSliceAdditionalSpecFns;
use vstd::utf8::encode_utf8;

use crate::syntax_tree::{
    check_node, child_text, first_child_of_kind, get_node_text, lemma_child_wf, node_wf, opt_bytes, str_eq, text_bytes, SyntaxNode,
};

verus! {

broadcast use vstd::seq_lib::group_seq_properties;

/// A parsed source file: its syntax tree, its text and its path.
///
/// The tree always lies within the text: see [`node_wf`].
#[derive(Debug)]
pub struct ParsedSource {
    root: SyntaxNode,
    source: String,
    path: String,
}

/// Children of kind `k`, in order.
pub open spec fn children_of_kind(cs: Seq<SyntaxNode>, k: Seq<char>) -> Seq<SyntaxNode> {
    cs.filter(|c: SyntaxNode| c.kind@ == k)
}

/// The nodes of the entity blocks at the top of a tree.
pub open spec fn entity_nodes(root: SyntaxNode) -> Seq<SyntaxNode> {
    children_of_kind(root.children@, "entity_block"@)
}

/// The nodes of the schema blocks at the top of a tree.
pub open spec fn schema_nodes(root: SyntaxNode) -> Seq<SyntaxNode> {
    children_of_kind(root.children@, "schema_block"@)
}

/// The `field` nodes in the first `block` of an entity node.
pub open spec fn entity_field_nodes(n: SyntaxNode) -> Seq<SyntaxNode> {
    match first_child_of_kind(n, "block"@) {
        Some(b) => children_of_kind(b.children@, "field"@),
        None => seq![],
    }
}

/// A `nested_block` whose first `block_type` reads `field`.
pub open spec fn is_field_definition(c: SyntaxNode, bytes: Seq<u8>) -> bool {
    &&& c.kind@ == "nested_block"@
    &&& child_text(c, "block_type"@, bytes) == Some(encode_utf8("field"@))
}

/// The field definitions in the first `block` of a schema node.
pub open spec fn schema_field_nodes(n: SyntaxNode, bytes: Seq<u8>) -> Seq<SyntaxNode> {
    match first_child_of_kind(n, "block"@) {
        Some(b) => b.children@.filter(|c: SyntaxNode| is_field_definition(c, bytes)),
        None => seq![],
    }
}

impl ParsedSource {
    #[verifier::type_invariant]
    closed spec fn inv(self) -> bool {
        node_wf(self.root, text_bytes(&self.source))
    }

    /// The root of the syntax tree.
    pub closed spec fn tree(self) -> SyntaxNode {
        self.root
    }

    /// The source text.
    pub closed spec fn text(self) -> Seq<char> {
        self.source@
    }

    /// The file path.
    pub closed spec fn file(self) -> Seq<char> {
        self.path@
    }

    /// The UTF-8 bytes of the source text.
    pub open spec fn bytes(self) -> Seq<u8> {
        encode_utf8(self.text())
    }

    /// The tree lies within the text.
    pub open spec fn well_formed(self) -> bool {
        node_wf(self.tree(), self.bytes())
    }

    /// Builds a parsed source from a syntax tree, the text it was parsed
    /// from and the file path; `None` when the tree does not lie within the
    /// text (see [`node_wf`]).
    pub fn new(root: SyntaxNode, source: String, path: String) -> (r: Option<ParsedSource>)
        ensures
            r is Some <==> node_wf(root, text_bytes(&source)),
            r matches Some(p) ==> p.tree() == root && p.text() == source@ && p.file() == path@,
    {
        if check_node(&root, source.as_str()) {
            Some(ParsedSource { root, source, path })
        } else {
            None
        }
    }

    /// The root node of the syntax tree.
    pub fn root_node(&self) -> (r: &SyntaxNode)
        ensures
            *r == self.tree(),
            node_wf(*r, self.bytes()),
    {
        proof {
            use_type_invariant(self);
        }
        &self.root
    }

    /// The source text.
    pub fn source(&self) -> (r: &String)
        ensures
            r@ == self.text(),
    {
        &self.source
    }

    /// The file path.
    pub fn path(&self) -> (r: &String)
        ensures
            r@ == self.file(),
    {
        &self.path
    }

    /// The entity blocks of the file, in order.
    pub fn entities(&self) -> (r: Vec<ParsedEntity<'_>>)
        ensures
            r@.map_values(|e: ParsedEntity| e.spec_node()) == entity_nodes(self.tree()),
            forall|i: int|
                0 <= i < r@.len() ==> (#[trigger] r@[i]).spec_text() == self.text()
                    && r@[i].spec_file() == self.file(),
    {
        proof {
            use_type_invariant(self);
        }
        let cs = &self.root.children;
        let ghost pred = |c: SyntaxNode| c.kind@ == "entity_block"@;
        let mut r: Vec<ParsedEntity<'_>> = Vec::new();
        let mut i: usize = 0;
        while i < cs.len()
            invariant
                node_wf(self.root, text_bytes(&self.source)),
                pred == (|c: SyntaxNode| c.kind@ == "entity_block"@),
                cs == &self.root.children,
                i <= cs@.len(),
                r@.map_values(|e: ParsedEntity| e.spec_node()) == cs@.take(i as int).filter(pred),
                forall|j: int|
                    0 <= j < r@.len() ==> (#[trigger] r@[j]).spec_text() == self.text()
                        && r@[j].spec_file() == self.file(),
            decreases cs@.len() - i,
        {
            proof {
                lemma_child_wf(self.root, "entity_block"@, text_bytes(&self.source));
                cs@.take(i as int).lemma_filter_push(cs@[i as int], pred);
                assert(cs@.take(i + 1) =~= cs@.take(i as int).push(cs@[i as int]));
            }
            let ghost old_r = r@;
            if cs[i].kind_is("entity_block") {
                r.push(ParsedEntity::new(&cs[i], &self.source, &self.path));
                proof {
                    assert(r@.map_values(|e: ParsedEntity| e.spec_node()) =~= old_r.map_values(
                        |e: ParsedEntity| e.spec_node(),
                    ).push(cs@[i as int]));
                }
            }
            i = i + 1;
        }
        proof {
            assert(cs@.take(cs@.len() as int) =~= cs@);
        }
        r
    }

    /// The schema blocks of the file, in order.
    pub fn schemas(&self) -> (r: Vec<ParsedSchema<'_>>)
        ensures
            r@.map_values(|e: ParsedSchema| e.spec_node()) == schema_nodes(self.tree()),
            forall|i: int|
                0 <= i < r@.len() ==> (#[trigger] r@[i]).spec_text() == self.text()
                    && r@[i].spec_file() == self.file(),
    {
        proof {
            use_type_invariant(self);
        }
        let cs = &self.root.children;
        let ghost pred = |c: SyntaxNode| c.kind@ == "schema_block"@;
        let mut r: Vec<ParsedSchema<'_>> = Vec::new();
        let mut i: usize = 0;
        while i < cs.len()
            invariant
                node_wf(self.root, text_bytes(&self.source)),
                pred == (|c: SyntaxNode| c.kind@ == "schema_block"@),
                cs == &self.root.children,
                i <= cs@.len(),
                r@.map_values(|e: ParsedSchema| e.spec_node()) == cs@.take(i as int).filter(pred),
                forall|j: int|
                    0 <= j < r@.len() ==> (#[trigger] r@[j]).spec_text() == self.text()
                        && r@[j].spec_file() == self.file(),
            decreases cs@.len() - i,
        {
            proof {
                lemma_child_wf(self.root, "schema_block"@, text_bytes(&self.source));
                cs@.take(i as int).lemma_filter_push(cs@[i as int], pred);
                assert(cs@.take(i + 1) =~= cs@.take(i as int).push(cs@[i as int]));
            }
            let ghost old_r = r@;
            if cs[i].kind_is("schema_block") {
                r.push(ParsedSchema::new(&cs[i], &self.source, &self.path));
                proof {
                    assert(r@.map_values(|e: ParsedSchema| e.spec_node()) =~= old_r.map_values(
                        |e: ParsedSchema| e.spec_node(),
                    ).push(cs@[i as int]));
                }
            }
            i = i + 1;
        }
        proof {
            assert(cs@.take(cs@.len() as int) =~= cs@);
        }
        r
    }
}

/// A parsed entity definition: a block like `contact john_doe { ... }` with
/// access to the entity type, ID, and contained fields.
#[derive(Debug)]
pub struct ParsedEntity<'a> {
    node: &'a SyntaxNode,
    source: &'a String,
    path: &'a String,
}

impl<'a> ParsedEntity<'a> {
    #[verifier::type_invariant]
    closed spec fn inv(self) -> bool {
        node_wf(*self.node, text_bytes(self.source))
    }

    /// The entity's node.
    pub closed spec fn spec_node(self) -> SyntaxNode {
        *self.node
    }

    /// The source text the node lies in.
    pub closed spec fn spec_text(self) -> Seq<char> {
        self.source@
    }

    /// The file path.
    pub closed spec fn spec_file(self) -> Seq<char> {
        self.path@
    }

    /// The UTF-8 bytes of the source text.
    pub open spec fn spec_bytes(self) -> Seq<u8> {
        encode_utf8(self.spec_text())
    }

    /// Creates a new ParsedEntity from a syntax node and source text.
    pub fn new(node: &'a SyntaxNode, source: &'a String, path: &'a String) -> (r: Self)
        requires
            node_wf(*node, text_bytes(source)),
        ensures
            r.spec_node() == *node,
            r.spec_text() == source@,
            r.spec_file() == path@,
    {
        ParsedEntity { node, source, path }
    }

    /// Returns the entity type (e.g., "contact", "role").
    pub fn entity_type(&self) -> (r: Option<&'a str>)
        ensures
            opt_bytes(r) == child_text(self.spec_node(), "entity_type"@, self.spec_bytes()),
    {
        proof {
            use_type_invariant(self);
            lemma_child_wf(*self.node, "entity_type"@, text_bytes(self.source));
        }
        match self.node.find_child_of_kind("entity_type") {
            Some(c) => Some(get_node_text(c, self.source)),
            None => None,
        }
    }

    /// Returns the entity ID (e.g., "john_doe", "cto").
    pub fn id(&self) -> (r: Option<&'a str>)
        ensures
            opt_bytes(r) == child_text(self.spec_node(), "entity_id"@, self.spec_bytes()),
    {
        proof {
            use_type_invariant(self);
            lemma_child_wf(*self.node, "entity_id"@, text_bytes(self.source));
        }
        match self.node.find_child_of_kind("entity_id") {
            Some(c) => Some(get_node_text(c, self.source)),
            None => None,
        }
    }

    /// Returns the underlying syntax node.
    pub fn node(&self) -> (r: &'a SyntaxNode)
        ensures
            *r == self.spec_node(),
    {
        self.node
    }

    /// Returns the file path this entity was parsed from.
    pub fn path(&self) -> (r: &'a String)
        ensures
            r@ == self.spec_file(),
    {
        self.path
    }

    /// Extracts all field definitions from the entity block.
    pub fn fields(&self) -> (r: Vec<ParsedField<'a>>)
        ensures
            r@.map_values(|f: ParsedField| f.spec_node()) == entity_field_nodes(self.spec_node()),
            forall|i: int|
                0 <= i < r@.len() ==> (#[trigger] r@[i]).spec_text() == self.spec_text()
                    && r@[i].spec_file() == self.spec_file(),
    {
        proof {
            use_type_invariant(self);
            lemma_child_wf(*self.node, "block"@, text_bytes(self.source));
        }
        let mut r: Vec<ParsedField<'a>> = Vec::new();
        match self.node.find_child_of_kind("block") {
            Some(block) => {
                let cs = &block.children;
                let ghost pred = |c: SyntaxNode| c.kind@ == "field"@;
                let mut i: usize = 0;
                while i < cs.len()
                    invariant
                        node_wf(*block, text_bytes(self.source)),
                        pred == (|c: SyntaxNode| c.kind@ == "field"@),
                        cs == &block.children,
                        i <= cs@.len(),
                        r@.map_values(|f: ParsedField| f.spec_node()) == cs@.take(i as int).filter(
                            pred,
                        ),
                        forall|j: int|
                            0 <= j < r@.len() ==> (#[trigger] r@[j]).spec_text() == self.spec_text()
                                && r@[j].spec_file() == self.spec_file(),
                    decreases cs@.len() - i,
                {
                    proof {
                        lemma_child_wf(*block, "field"@, text_bytes(self.source));
                        cs@.take(i as int).lemma_filter_push(cs@[i as int], pred);
                        assert(cs@.take(i + 1) =~= cs@.take(i as int).push(cs@[i as int]));
                    }
                    let ghost old_r = r@;
                    if cs[i].kind_is("field") {
                        r.push(ParsedField::new(&cs[i], self.source, self.path));
                        proof {
                            assert(r@.map_values(|f: ParsedField| f.spec_node())
                                =~= old_r.map_values(|f: ParsedField| f.spec_node()).push(
                                cs@[i as int],
                            ));
                        }
                    }
                    i = i + 1;
                }
                proof {
                    assert(cs@.take(cs@.len() as int) =~= cs@);
                }
            },
            None => {
                proof {
                    assert(r@.map_values(|f: ParsedField| f.spec_node()) =~= Seq::<
                        SyntaxNode,
                    >::empty());
                }
            },
        }
        r
    }
}

/// A parsed field definition from an entity block: an assignment like
/// `name = "John Doe"`.
#[derive(Debug)]
pub struct ParsedField<'a> {
    node: &'a SyntaxNode,
    source: &'a String,
    path: &'a String,
}

impl<'a> ParsedField<'a> {
    #[verifier::type_invariant]
    closed spec fn inv(self) -> bool {
        node_wf(*self.node, text_bytes(self.source))
    }

    /// The field's node.
    pub closed spec fn spec_node(self) -> SyntaxNode {
        *self.node
    }

    /// The source text the node lies in.
    pub closed spec fn spec_text(self) -> Seq<char> {
        self.source@
    }

    /// The file path.
    pub closed spec fn spec_file(self) -> Seq<char> {
        self.path@
    }

    /// The UTF-8 bytes of the source text.
    pub open spec fn spec_bytes(self) -> Seq<u8> {
        encode_utf8(self.spec_text())
    }

    /// Creates a new ParsedField from a syntax node and source text.
    pub fn new(node: &'a SyntaxNode, source: &'a String, path: &'a String) -> (r: Self)
        requires
            node_wf(*node, text_bytes(source)),
        ensures
            r.spec_node() == *node,
            r.spec_text() == source@,
            r.spec_file() == path@,
    {
        ParsedField { node, source, path }
    }

    /// Returns the underlying syntax node for the whole field.
    pub fn node(&self) -> (r: &'a SyntaxNode)
        ensures
            *r == self.spec_node(),
    {
        self.node
    }

    /// Returns the syntax node for just the value part of the field.
    pub fn value_node(&self) -> (r: Option<&'a SyntaxNode>)
        ensures
            r matches Some(v) ==> first_child_of_kind(self.spec_node(), "value"@) == Some(*v),
            r is None ==> first_child_of_kind(self.spec_node(), "value"@) is None,
    {
        self.node.find_child_of_kind("value")
    }

    /// Returns the file path this field was parsed from.
    pub fn path(&self) -> (r: &'a String)
        ensures
            r@ == self.spec_file(),
    {
        self.path
    }

    /// Gets the field name (e.g., "name", "age").
    pub fn id(&self) -> (r: Option<&'a str>)
        ensures
            opt_bytes(r) == child_text(self.spec_node(), "field_name"@, self.spec_bytes()),
    {
        proof {
            use_type_invariant(self);
            lemma_child_wf(*self.node, "field_name"@, text_bytes(self.source));
        }
        match self.node.find_child_of_kind("field_name") {
            Some(c) => Some(get_node_text(c, self.source)),
            None => None,
        }
    }
}

/// A parsed schema definition: a block like `schema project { ... }` with
/// access to the schema name and contained field definitions.
#[derive(Debug)]
pub struct ParsedSchema<'a> {
    node: &'a SyntaxNode,
    source: &'a String,
    path: &'a String,
}

impl<'a> ParsedSchema<'a> {
    #[verifier::type_invariant]
    closed spec fn inv(self) -> bool {
        node_wf(*self.node, text_bytes(self.source))
    }

    /// The schema's node.
    pub closed spec fn spec_node(self) -> SyntaxNode {
        *self.node
    }

    /// The source text the node lies in.
    pub closed spec fn spec_text(self) -> Seq<char> {
        self.source@
    }

    /// The file path.
    pub closed spec fn spec_file(self) -> Seq<char> {
        self.path@
    }

    /// The UTF-8 bytes of the source text.
    pub open spec fn spec_bytes(self) -> Seq<u8> {
        encode_utf8(self.spec_text())
    }

    /// Creates a new ParsedSchema from a syntax node and source text.
    pub fn new(node: &'a SyntaxNode, source: &'a String, path: &'a String) -> (r: Self)
        requires
            node_wf(*node, text_bytes(source)),
        ensures
            r.spec_node() == *node,
            r.spec_text() == source@,
            r.spec_file() == path@,
    {
        ParsedSchema { node, source, path }
    }

    /// Returns the underlying syntax node.
    pub fn node(&self) -> (r: &'a SyntaxNode)
        ensures
            *r == self.spec_node(),
    {
        self.node
    }

    /// Gets the schema name (e.g., "project", "invoice").
    pub fn name(&self) -> (r: Option<&'a str>)
        ensures
            opt_bytes(r) == child_text(self.spec_node(), "schema_name"@, self.spec_bytes()),
    {
        proof {
            use_type_invariant(self);
            lemma_child_wf(*self.node, "schema_name"@, text_bytes(self.source));
        }
        match self.node.find_child_of_kind("schema_name") {
            Some(c) => Some(get_node_text(c, self.source)),
            None => None,
        }
    }

    /// Extracts all field definitions from the schema block: the nested
    /// blocks whose block type reads `field`.
    pub fn fields(&self) -> (r: Vec<ParsedSchemaField<'a>>)
        ensures
            r@.map_values(|f: ParsedSchemaField| f.spec_node()) == schema_field_nodes(
                self.spec_node(),
                self.spec_bytes(),
            ),
            forall|i: int|
                0 <= i < r@.len() ==> (#[trigger] r@[i]).spec_text() == self.spec_text()
                    && r@[i].spec_file() == self.spec_file(),
    {
        proof {
            use_type_invariant(self);
            lemma_child_wf(*self.node, "block"@, text_bytes(self.source));
        }
        let ghost bytes = self.spec_bytes();
        let mut r: Vec<ParsedSchemaField<'a>> = Vec::new();
        match self.node.find_child_of_kind("block") {
            Some(block) => {
                let cs = &block.children;
                let ghost pred = |c: SyntaxNode| is_field_definition(c, bytes);
                let mut i: usize = 0;
                while i < cs.len()
                    invariant
                        pred == (|c: SyntaxNode| is_field_definition(c, bytes)),
                        bytes == self.spec_bytes(),
                        bytes == text_bytes(self.source),
                        node_wf(*block, bytes),
                        cs == &block.children,
                        i <= cs@.len(),
                        r@.map_values(|f: ParsedSchemaField| f.spec_node()) == cs@.take(
                            i as int,
                        ).filter(pred),
                        forall|j: int|
                            0 <= j < r@.len() ==> (#[trigger] r@[j]).spec_text() == self.spec_text()
                                && r@[j].spec_file() == self.spec_file(),
                    decreases cs@.len() - i,
                {
                    proof {
                        lemma_child_wf(*block, "field"@, bytes);
                        cs@.take(i as int).lemma_filter_push(cs@[i as int], pred);
                        assert(cs@.take(i + 1) =~= cs@.take(i as int).push(cs@[i as int]));
                    }
                    let ghost old_r = r@;
                    let child = &cs[i];
                    let keep = if child.kind_is("nested_block") {
                        proof {
                            lemma_child_wf(*child, "block_type"@, bytes);
                        }
                        match child.find_child_of_kind("block_type") {
                            Some(bt) => {
                                let t = get_node_text(bt, self.source);
                                str_eq(t, "field")
                            },
                            None => false,
                        }
                    } else {
                        false
                    };
                    proof {
                        assert(keep == pred(cs@[i as int]));
                    }
                    if keep {
                        r.push(ParsedSchemaField::new(child, self.source, self.path));
                        proof {
                            assert(r@.map_values(|f: ParsedSchemaField| f.spec_node())
                                =~= old_r.map_values(|f: ParsedSchemaField| f.spec_node()).push(
                                cs@[i as int],
                            ));
                        }
                    }
                    i = i + 1;
                }
                proof {
                    assert(cs@.take(cs@.len() as int) =~= cs@);
                }
            },
            None => {
                proof {
                    assert(r@.map_values(|f: ParsedSchemaField| f.spec_node()) =~= Seq::<
                        SyntaxNode,
                    >::empty());
                }
            },
        }
        r
    }
}

/// A field definition inside a schema block: a `field { ... }` nested block.
#[derive(Debug)]
pub struct ParsedSchemaField<'a> {
    node: &'a SyntaxNode,
    source: &'a String,
    path: &'a String,
}

impl<'a> ParsedSchemaField<'a> {
    #[verifier::type_invariant]
    closed spec fn inv(self) -> bool {
        node_wf(*self.node, text_bytes(self.source))
    }

    /// The field definition's node.
    pub closed spec fn spec_node(self) -> SyntaxNode {
        *self.node
    }

    /// The source text the node lies in.
    pub closed spec fn spec_text(self) -> Seq<char> {
        self.source@
    }

    /// The file path.
    pub closed spec fn spec_file(self) -> Seq<char> {
        self.path@
    }

    /// Creates a new ParsedSchemaField from a syntax node and source text.
    pub fn new(node: &'a SyntaxNode, source: &'a String, path: &'a String) -> (r: Self)
        requires
            node_wf(*node, text_bytes(source)),
        ensures
            r.spec_node() == *node,
            r.spec_text() == source@,
            r.spec_file() == path@,
    {
        ParsedSchemaField { node, source, path }
    }

    /// Returns the underlying syntax node.
    pub fn node(&self) -> (r: &'a SyntaxNode)
        ensures
            *r == self.spec_node(),
    {
        self.node
    }

    /// Returns the file path this field definition was parsed from.
    pub fn path(&self) -> (r: &'a String)
        ensures
            r@ == self.spec_file(),
    {
        self.path
    }
}

} // verus!
