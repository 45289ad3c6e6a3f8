//! The schema model: a declarative description of the keymap file's shape,
//! for outside tooling that validates or autocompletes keymap files. This
//! module has no part in loading; it only produces a static description.

use vstd::prelude::*;

verus! {

/// One node of a schema.
#[derive(Debug)]
pub enum SchemaNode {
    /// Accepts any value. The action-descriptor slot is deliberately this
    /// open: which descriptor shapes are valid depends on the command
    /// kinds the embedding application registers, which a static schema
    /// cannot enumerate.
    Anything,
    /// A string.
    Text,
    /// A sequence whose elements all follow one schema.
    SequenceOf(Box<SchemaNode>),
    /// A mapping with string keys whose values all follow one schema.
    MapOf(Box<SchemaNode>),
    /// An object with the named fields.
    Record(Vec<FieldSchema>),
}

/// One named field of a record schema.
#[derive(Debug)]
pub struct FieldSchema {
    pub name: String,
    pub required: bool,
    pub schema: SchemaNode,
}

/// The model of a `SchemaNode`.
#[verifier::ext_equal]
pub enum SpecSchemaNode {
    Anything,
    Text,
    SequenceOf(Box<SpecSchemaNode>),
    MapOf(Box<SpecSchemaNode>),
    Record(Seq<SpecFieldSchema>),
}

/// The model of a `FieldSchema`.
#[verifier::ext_equal]
pub struct SpecFieldSchema {
    pub name: Seq<char>,
    pub required: bool,
    pub schema: SpecSchemaNode,
}

/// The model of a schema node.
pub open spec fn view_schema(s: SchemaNode) -> SpecSchemaNode
    decreases s,
{
    match s {
        SchemaNode::Anything => SpecSchemaNode::Anything,
        SchemaNode::Text => SpecSchemaNode::Text,
        SchemaNode::SequenceOf(b) => SpecSchemaNode::SequenceOf(Box::new(view_schema(*b))),
        SchemaNode::MapOf(b) => SpecSchemaNode::MapOf(Box::new(view_schema(*b))),
        SchemaNode::Record(fs) => SpecSchemaNode::Record(
            Seq::new(
                fs@.len(),
                |i: int|
                    if 0 <= i < fs@.len() {
                        view_field(fs@[i])
                    } else {
                        SpecFieldSchema {
                            name: Seq::empty(),
                            required: false,
                            schema: SpecSchemaNode::Anything,
                        }
                    },
            ),
        ),
    }
}

/// The model of a field schema.
pub open spec fn view_field(f: FieldSchema) -> SpecFieldSchema
    decreases f,
{
    SpecFieldSchema { name: f.name@, required: f.required, schema: view_schema(f.schema) }
}

impl View for SchemaNode {
    type V = SpecSchemaNode;

    open spec fn view(&self) -> SpecSchemaNode {
        view_schema(*self)
    }
}

/// The schema of a keymap file: a sequence of blocks, each an object with
/// an optional string `context` field and a required `bindings` field
/// mapping keystroke strings to values of any shape.
pub open spec fn spec_binding_file_schema() -> SpecSchemaNode {
    SpecSchemaNode::SequenceOf(
        Box::new(
            SpecSchemaNode::Record(
                seq![
                    SpecFieldSchema {
                        name: "context"@,
                        required: false,
                        schema: SpecSchemaNode::Text,
                    },
                    SpecFieldSchema {
                        name: "bindings"@,
                        required: true,
                        schema: SpecSchemaNode::MapOf(Box::new(SpecSchemaNode::Anything)),
                    },
                ],
            ),
        ),
    )
}

/// The schema of a keymap file, independent of any loaded file, for
/// outside validation tooling.
pub fn schema_for_binding_file() -> (r: SchemaNode)
    ensures
        r@ == spec_binding_file_schema(),
{
    let mut fields: Vec<FieldSchema> = Vec::new();
    fields.push(
        FieldSchema { name: String::from_str("context"), required: false, schema: SchemaNode::Text },
    );
    fields.push(
        FieldSchema {
            name: String::from_str("bindings"),
            required: true,
            schema: SchemaNode::MapOf(Box::new(SchemaNode::Anything)),
        },
    );
    let record = SchemaNode::Record(fields);
    let ghost rv = record@;
    let r = SchemaNode::SequenceOf(Box::new(record));
    proof {
        reveal_with_fuel(view_schema, 4);
        reveal_with_fuel(view_field, 2);
        let want = seq![
            SpecFieldSchema { name: "context"@, required: false, schema: SpecSchemaNode::Text },
            SpecFieldSchema {
                name: "bindings"@,
                required: true,
                schema: SpecSchemaNode::MapOf(Box::new(SpecSchemaNode::Anything)),
            },
        ];
        assert(rv->Record_0 =~= want);
        assert(rv == SpecSchemaNode::Record(want));
        assert(r@ == SpecSchemaNode::SequenceOf(Box::new(rv)));
        assert(spec_binding_file_schema() == SpecSchemaNode::SequenceOf(
            Box::new(SpecSchemaNode::Record(want)),
        ));
    }
    r
}

} // verus!
