//! The keymap file: parsing, structural checking, and installation.
//!
//! A keymap file is a sequence of blocks; each block has an optional
//! context filter and a mapping from keystroke to action descriptor. The
//! source text is a comment- and trailing-comma-tolerant JSON dialect.
//! Parsing the text is delegated to an outside parser behind a trusted
//! wrapper; everything after the parse — shape checking, descriptor
//! classification, resolution, and installation — is verified.

use vstd::prelude::*;

use crate::errors::LoadError;
use crate::errors::ParseError;
use crate::errors::SchemaError;
use crate::errors::SpecLoadError;
use crate::registry::spec_resolve;
use crate::registry::Registry;
use crate::registry::ResolvedCommand;
use crate::registry::SpecCommand;
use crate::registry::SpecKind;
use crate::value::keys_distinct;
use crate::value::lemma_view_array;
use crate::value::lemma_view_object;
use crate::value::lemma_obj_lookup_push;
use crate::value::obj_lookup;
use crate::value::opt_value_view;
use crate::value::pairs_view;
use crate::value::str_eq;
use crate::value::view_value;
use crate::value::SpecValue;
use crate::value::JsonValue;

verus! {

broadcast use vstd::std_specs::vec::group_vec_axioms, vstd::seq::group_seq_axioms;

/// The model of an optional owned string.
pub open spec fn opt_str_view(o: Option<String>) -> Option<Seq<char>> {
    match o {
        Some(s) => Some(s@),
        None => None,
    }
}

/// One action descriptor, as the file gave it: a dynamic value whose legal
/// shapes are a bare command name, a `[name, payload]` pair, or null.
#[derive(Debug, PartialEq, Eq)]
pub struct KeymapAction(pub JsonValue);

impl View for KeymapAction {
    type V = SpecValue;

    open spec fn view(&self) -> SpecValue {
        view_value(self.0)
    }
}

/// The model of a block's binding entries.
pub open spec fn bindings_view(bs: Seq<(String, KeymapAction)>) -> Seq<(Seq<char>, SpecValue)> {
    Seq::new(bs.len(), |i: int| (bs[i].0@, bs[i].1@))
}

/// One block of a keymap file: an optional context filter and the block's
/// bindings, with no keystroke bound twice.
#[derive(Debug)]
pub struct KeymapBlock {
    context: Option<String>,
    bindings: Vec<(String, KeymapAction)>,
}

/// The model of a `KeymapBlock`.
pub struct SpecBlock {
    pub context: Option<Seq<char>>,
    pub bindings: Seq<(Seq<char>, SpecValue)>,
}

impl View for KeymapBlock {
    type V = SpecBlock;

    closed spec fn view(&self) -> SpecBlock {
        SpecBlock { context: opt_str_view(self.context), bindings: bindings_view(self.bindings@) }
    }
}

impl KeymapBlock {
    /// The block's context filter, if any.
    pub fn context(&self) -> (r: &Option<String>)
        ensures
            opt_str_view(*r) == self@.context,
    {
        &self.context
    }

    /// The block's binding entries, in file order.
    pub fn bindings(&self) -> (r: &Vec<(String, KeymapAction)>)
        ensures
            bindings_view(r@) == self@.bindings,
    {
        &self.bindings
    }
}

/// The model of a sequence of blocks.
pub open spec fn blocks_view(bs: Seq<KeymapBlock>) -> Seq<SpecBlock> {
    Seq::new(bs.len(), |i: int| bs[i]@)
}

/// A parsed keymap file: its blocks, in file order.
#[derive(Debug)]
pub struct KeymapFile(Vec<KeymapBlock>);

impl View for KeymapFile {
    type V = Seq<SpecBlock>;

    closed spec fn view(&self) -> Seq<SpecBlock> {
        blocks_view(self.0@)
    }
}

/// The context filter a block's `context` entry denotes: a string is the
/// filter itself; null or absence means the block is always active.
pub open spec fn spec_ctx_of(ctx: Option<SpecValue>) -> Option<Seq<char>> {
    match ctx {
        Some(SpecValue::Str(s)) => Some(s),
        _ => None,
    }
}

/// What shape a block must have: an object whose `context` entry, if
/// present, is a string or null, and whose `bindings` entry is an object
/// binding no keystroke twice.
pub open spec fn spec_block_of(v: SpecValue) -> Result<SpecBlock, SchemaError> {
    match v {
        SpecValue::Object(fields) => {
            let ctx = obj_lookup(fields, "context"@);
            if !(ctx is None || ctx matches Some(SpecValue::Str(_)) || ctx matches Some(
                SpecValue::Null,
            )) {
                Err(SchemaError::ContextNotString)
            } else {
                match obj_lookup(fields, "bindings"@) {
                    Some(SpecValue::Object(ps)) => if keys_distinct(ps) {
                        Ok(SpecBlock { context: spec_ctx_of(ctx), bindings: ps })
                    } else {
                        Err(SchemaError::DuplicateBinding)
                    },
                    _ => Err(SchemaError::BindingsNotMap),
                }
            }
        },
        _ => Err(SchemaError::BlockNotObject),
    }
}

/// What shape a sequence of blocks must have; the first offending block
/// decides the error.
pub open spec fn spec_blocks_of(items: Seq<SpecValue>) -> Result<Seq<SpecBlock>, SchemaError>
    decreases items.len(),
{
    if items.len() == 0 {
        Ok(Seq::empty())
    } else {
        match spec_blocks_of(items.drop_last()) {
            Err(e) => Err(e),
            Ok(bs) => match spec_block_of(items.last()) {
                Err(e) => Err(e),
                Ok(b) => Ok(bs.push(b)),
            },
        }
    }
}

/// What shape a whole keymap file must have: a sequence of blocks.
pub open spec fn spec_file_of(v: SpecValue) -> Result<Seq<SpecBlock>, SchemaError> {
    match v {
        SpecValue::Array(items) => spec_blocks_of(items),
        _ => Err(SchemaError::TopLevelNotSequence),
    }
}

/// What the lenient parser makes of a source text: its value tree, or
/// nothing when the text is not syntactically valid. A function of the
/// text alone.
pub uninterp spec fn parse_of(text: Seq<char>) -> Option<SpecValue>;

/// Relies on `serde_json_lenient::Value` as an opaque type: it only passes
/// from the parser to the importer below.
#[verifier::external_type_specification]
#[verifier::external_body]
pub struct ExLenientValue(serde_json_lenient::Value);

/// Relies on `serde_json_lenient::Value`: each variant is carried over
/// one-for-one into the crate's own tree. A number inside the signed
/// 64-bit range becomes `Int`; any other number keeps its decimal text.
#[verifier::external_body]
fn import_value(v: serde_json_lenient::Value) -> JsonValue {
    match v {
        serde_json_lenient::Value::Null => JsonValue::Null,
        serde_json_lenient::Value::Bool(b) => JsonValue::Bool(b),
        serde_json_lenient::Value::Number(n) => match n.as_i64() {
            Some(i) => JsonValue::Int(i),
            None => JsonValue::Num(n.to_string()),
        },
        serde_json_lenient::Value::String(s) => JsonValue::Str(s),
        serde_json_lenient::Value::Array(a) => JsonValue::Array(
            a.into_iter().map(import_value).collect(),
        ),
        serde_json_lenient::Value::Object(m) => JsonValue::Object(
            m.into_iter().map(|(k, x)| (k, import_value(x))).collect(),
        ),
    }
}

/// Relies on `serde_json_lenient::from_str`, which tolerates comments and
/// trailing commas: parsing is a function of the text alone, and the
/// returned tree is the parsed value, imported variant for variant.
#[verifier::external_body]
pub fn parse_json_with_comments(content: &str) -> (r: Result<JsonValue, ParseError>)
    ensures
        r is Ok <==> parse_of(content@) is Some,
        r matches Ok(v) ==> parse_of(content@) == Some(v@),
{
    match serde_json_lenient::from_str::<serde_json_lenient::Value>(content) {
        Ok(v) => Ok(import_value(v)),
        Err(e) => Err(ParseError { message: e.to_string() }),
    }
}

/// The first `context` and `bindings` entries of a block object, by
/// consuming its entries.
#[verifier::loop_isolation(false)]
fn split_block_fields(fields: Vec<(String, JsonValue)>) -> (r: (Option<JsonValue>, Option<JsonValue>))
    ensures
        opt_value_view(r.0) == obj_lookup(pairs_view(fields@), "context"@),
        opt_value_view(r.1) == obj_lookup(pairs_view(fields@), "bindings"@),
{
    let ghost orig = pairs_view(fields@);
    let mut rest = fields;
    let mut ctx_v: Option<JsonValue> = None;
    let mut bind_v: Option<JsonValue> = None;
    let ghost mut i: int = 0;
    proof {
        assert(orig.take(0) =~= Seq::<(Seq<char>, SpecValue)>::empty());
        assert(orig.skip(0) =~= orig);
    }
    while rest.len() > 0
        invariant
            0 <= i <= orig.len(),
            i + rest@.len() == orig.len(),
            pairs_view(rest@) =~= orig.skip(i),
            opt_value_view(ctx_v) == obj_lookup(orig.take(i), "context"@),
            opt_value_view(bind_v) == obj_lookup(orig.take(i), "bindings"@),
        decreases rest@.len(),
    {
        let ghost pre = rest@;
        let (k, v) = rest.remove(0);
        proof {
            reveal_strlit("context");
            reveal_strlit("bindings");
            assert("context"@.len() == 7);
            assert("bindings"@.len() == 8);
            assert("context"@ != "bindings"@);
            assert(orig[i] == pairs_view(pre)[0]);
            assert(orig[i] == (k@, view_value(v)));
            assert(orig.take(i + 1) =~= orig.take(i).push(orig[i]));
            lemma_obj_lookup_push(orig.take(i), orig[i], "context"@);
            lemma_obj_lookup_push(orig.take(i), orig[i], "bindings"@);
            assert(rest@ =~= pre.drop_first());
            assert forall|j: int| 0 <= j < rest@.len() implies pairs_view(rest@)[j] == orig.skip(
                i + 1,
            )[j] by {
                assert(rest@[j] == pre[j + 1]);
                assert(pairs_view(rest@)[j] == pairs_view(pre)[j + 1]);
                assert(pairs_view(pre)[j + 1] == orig.skip(i)[j + 1]);
                assert(orig.skip(i)[j + 1] == orig[i + 1 + j]);
                assert(orig.skip(i + 1)[j] == orig[i + 1 + j]);
            };
            assert(pairs_view(rest@) =~= orig.skip(i + 1));
        }
        if str_eq(k.as_str(), "context") {
            if ctx_v.is_none() {
                ctx_v = Some(v);
            }
        } else if str_eq(k.as_str(), "bindings") {
            if bind_v.is_none() {
                bind_v = Some(v);
            }
        }
        proof {
            i = i + 1;
        }
    }
    proof {
        assert(orig.take(i) =~= orig);
    }
    (ctx_v, bind_v)
}

/// Whether some entry of a block already binds `key`.
fn contains_binding(bs: &Vec<(String, KeymapAction)>, key: &str) -> (r: bool)
    ensures
        r == exists|j: int| 0 <= j < bs@.len() && #[trigger] bindings_view(bs@)[j].0 == key@,
{
    let mut i: usize = 0;
    while i < bs.len()
        invariant
            0 <= i <= bs@.len(),
            forall|j: int| 0 <= j < i ==> #[trigger] bindings_view(bs@)[j].0 != key@,
        decreases bs@.len() - i,
    {
        if str_eq(bs[i].0.as_str(), key) {
            assert(bindings_view(bs@)[i as int].0 == key@);
            return true;
        }
        i = i + 1;
    }
    false
}

/// One block from its dynamic value, or the exact structural fault.
#[verifier::loop_isolation(false)]
#[verifier::rlimit(50)]
fn block_of_value(v: JsonValue) -> (r: Result<KeymapBlock, SchemaError>)
    ensures
        r matches Ok(b) ==> spec_block_of(v@) == Ok::<SpecBlock, SchemaError>(b@),
        r matches Err(e) ==> spec_block_of(v@) == Err::<SpecBlock, SchemaError>(e),
{
    match v {
        JsonValue::Object(fields) => {
            proof {
                lemma_view_object(fields);
            }
            let ghost fv = pairs_view(fields@);
            let (ctx_v, bind_v) = split_block_fields(fields);
            let context: Option<String> = match ctx_v {
                None => None,
                Some(JsonValue::Str(s)) => Some(s),
                Some(JsonValue::Null) => None,
                Some(_) => {
                    return Err(SchemaError::ContextNotString);
                },
            };
            let pairs = match bind_v {
                Some(JsonValue::Object(ps)) => ps,
                _ => {
                    return Err(SchemaError::BindingsNotMap);
                },
            };
            proof {
                lemma_view_object(pairs);
            }
            let ghost orig = pairs_view(pairs@);
            let mut rest = pairs;
            let mut out: Vec<(String, KeymapAction)> = Vec::new();
            let ghost mut i: int = 0;
            proof {
                assert(orig.take(0) =~= Seq::<(Seq<char>, SpecValue)>::empty());
                assert(bindings_view(out@) =~= Seq::<(Seq<char>, SpecValue)>::empty());
                assert(orig.skip(0) =~= orig);
            }
            while rest.len() > 0
                invariant
                    0 <= i <= orig.len(),
                    i + rest@.len() == orig.len(),
                    pairs_view(rest@) =~= orig.skip(i),
                    bindings_view(out@) =~= orig.take(i),
                    keys_distinct(orig.take(i)),
                decreases rest@.len(),
            {
                let ghost pre = rest@;
                let (k, av) = rest.remove(0);
                proof {
                    assert(orig[i] == pairs_view(pre)[0]);
                    assert(orig[i] == (k@, view_value(av)));
                    assert(rest@ =~= pre.drop_first());
                    assert forall|j: int| 0 <= j < rest@.len() implies pairs_view(rest@)[j]
                        == orig.skip(i + 1)[j] by {
                        assert(rest@[j] == pre[j + 1]);
                        assert(pairs_view(rest@)[j] == pairs_view(pre)[j + 1]);
                        assert(pairs_view(pre)[j + 1] == orig.skip(i)[j + 1]);
                        assert(orig.skip(i)[j + 1] == orig[i + 1 + j]);
                        assert(orig.skip(i + 1)[j] == orig[i + 1 + j]);
                    };
                    assert(pairs_view(rest@) =~= orig.skip(i + 1));
                    assert(orig.take(i + 1) =~= orig.take(i).push(orig[i]));
                }
                if contains_binding(&out, k.as_str()) {
                    proof {
                        let j = choose|j: int|
                            0 <= j < out@.len() && #[trigger] bindings_view(out@)[j].0 == k@;
                        assert(orig.take(i)[j].0 == orig[i].0);
                        assert(orig[j] == orig.take(i)[j]);
                        assert(!keys_distinct(orig));
                    }
                    return Err(SchemaError::DuplicateBinding);
                }
                let ghost pre = out@;
                out.push((k, KeymapAction(av)));
                proof {
                    assert(bindings_view(out@) =~= bindings_view(pre).push(orig[i]));
                    i = i + 1;
                }
            }
            proof {
                assert(orig.take(i) =~= orig);
            }
            Ok(KeymapBlock { context, bindings: out })
        },
        _ => Err(SchemaError::BlockNotObject),
    }
}

/// A structural error at one block decides the whole sequence's error.
proof fn lemma_blocks_of_error(items: Seq<SpecValue>, i: int, e: SchemaError)
    requires
        0 <= i < items.len(),
        spec_blocks_of(items.take(i)) is Ok,
        spec_block_of(items[i]) == Err::<SpecBlock, SchemaError>(e),
    ensures
        spec_blocks_of(items) == Err::<Seq<SpecBlock>, SchemaError>(e),
    decreases items.len(),
{
    if items.len() == i + 1 {
        assert(items.drop_last() =~= items.take(i));
        assert(items.last() == items[i]);
    } else {
        assert(items.drop_last().take(i) =~= items.take(i));
        assert(items.drop_last()[i] == items[i]);
        lemma_blocks_of_error(items.drop_last(), i, e);
    }
}

impl KeymapFile {
    /// The file's blocks, in file order.
    pub fn blocks(&self) -> (r: &Vec<KeymapBlock>)
        ensures
            blocks_view(r@) == self@,
    {
        &self.0
    }

    /// A keymap file from an already-parsed dynamic value. Succeeds
    /// exactly when the value is shaped as a keymap file; the error says
    /// which structural rule the value breaks, for the first block that
    /// breaks one.
    #[verifier::loop_isolation(false)]
    #[verifier::rlimit(50)]
    pub fn from_value(v: JsonValue) -> (r: Result<KeymapFile, SchemaError>)
        ensures
            r matches Ok(f) ==> spec_file_of(v@) == Ok::<Seq<SpecBlock>, SchemaError>(f@),
            r matches Err(e) ==> spec_file_of(v@) == Err::<Seq<SpecBlock>, SchemaError>(e),
    {
        match v {
            JsonValue::Array(items) => {
                proof {
                    lemma_view_array(items);
                }
                let ghost orig = crate::value::elems_view(items@);
                let mut rest = items;
                let mut blocks: Vec<KeymapBlock> = Vec::new();
                let ghost mut i: int = 0;
                proof {
                    assert(orig.take(0) =~= Seq::<SpecValue>::empty());
                    assert(blocks_view(blocks@) =~= Seq::<SpecBlock>::empty());
                    assert(orig.skip(0) =~= orig);
                }
                while rest.len() > 0
                    invariant
                        0 <= i <= orig.len(),
                        i + rest@.len() == orig.len(),
                        crate::value::elems_view(rest@) =~= orig.skip(i),
                        spec_blocks_of(orig.take(i)) == Ok::<Seq<SpecBlock>, SchemaError>(
                            blocks_view(blocks@),
                        ),
                    decreases rest@.len(),
                {
                    let ghost pre = rest@;
                    let bv = rest.remove(0);
                    proof {
                        assert(orig[i] == crate::value::elems_view(pre)[0]);
                        assert(orig[i] == view_value(bv));
                        assert(rest@ =~= pre.drop_first());
                        assert forall|j: int| 0 <= j < rest@.len() implies crate::value::elems_view(
                            rest@,
                        )[j] == orig.skip(i + 1)[j] by {
                            assert(rest@[j] == pre[j + 1]);
                            assert(crate::value::elems_view(rest@)[j] == crate::value::elems_view(
                                pre,
                            )[j + 1]);
                            assert(crate::value::elems_view(pre)[j + 1] == orig.skip(i)[j + 1]);
                            assert(orig.skip(i)[j + 1] == orig[i + 1 + j]);
                            assert(orig.skip(i + 1)[j] == orig[i + 1 + j]);
                        };
                        assert(crate::value::elems_view(rest@) =~= orig.skip(i + 1));
                        assert(orig.take(i + 1) =~= orig.take(i).push(orig[i]));
                        assert(orig.take(i + 1).drop_last() =~= orig.take(i));
                    }
                    match block_of_value(bv) {
                        Ok(b) => {
                            let ghost pre = blocks@;
                            blocks.push(b);
                            proof {
                                assert(blocks_view(blocks@) =~= blocks_view(pre).push(b@));
                                i = i + 1;
                            }
                        },
                        Err(e) => {
                            proof {
                                lemma_blocks_of_error(orig, i, e);
                            }
                            return Err(e);
                        },
                    }
                }
                proof {
                    assert(orig.take(i) =~= orig);
                }
                Ok(KeymapFile(blocks))
            },
            _ => Err(SchemaError::TopLevelNotSequence),
        }
    }

    /// A keymap file from source text. Succeeds exactly when the text
    /// parses and the parsed value is shaped as a keymap file; the error
    /// distinguishes a syntactic from a structural fault.
    pub fn parse(content: &str) -> (r: Result<KeymapFile, LoadError>)
        ensures
            parse_of(content@) is None ==> (r matches Err(e) && e@ == SpecLoadError::Parse),
            parse_of(content@) matches Some(v) ==> match spec_file_of(v) {
                Ok(blocks) => r matches Ok(f) && f@ == blocks,
                Err(se) => r matches Err(e) && e@ == SpecLoadError::Schema(se),
            },
    {
        match parse_json_with_comments(content) {
            Err(pe) => Err(LoadError::Parse(pe)),
            Ok(v) => match KeymapFile::from_value(v) {
                Ok(f) => Ok(f),
                Err(se) => Err(LoadError::Schema(se)),
            },
        }
    }
}

/// What one descriptor resolves to against a registry: a bare string is a
/// command name without payload; a two-element `[name, payload]` sequence
/// whose first element is a string carries the payload; null is the no-op;
/// anything else is malformed.
pub open spec fn spec_entry_outcome(kinds: Seq<SpecKind>, action: SpecValue) -> Result<
    SpecCommand,
    SpecLoadError,
> {
    match action {
        SpecValue::Str(name) => match spec_resolve(kinds, name, None) {
            Ok(c) => Ok(c),
            Err(e) => Err(SpecLoadError::Resolve(e)),
        },
        SpecValue::Null => Ok(SpecCommand::NoOp),
        SpecValue::Array(items) => if items.len() == 2 && items[0] is Str {
            match spec_resolve(kinds, items[0]->Str_0, Some(items[1])) {
                Ok(c) => Ok(c),
                Err(e) => Err(SpecLoadError::Resolve(e)),
            }
        } else {
            Err(SpecLoadError::MalformedDescriptor)
        },
        _ => Err(SpecLoadError::MalformedDescriptor),
    }
}

/// One installed binding: a keystroke pattern, the enclosing block's
/// context filter, and the resolved command.
#[derive(Debug, PartialEq, Eq)]
pub struct KeyBinding {
    pub keystroke: String,
    pub context: Option<String>,
    pub action: ResolvedCommand,
}

/// The model of a `KeyBinding`.
pub struct SpecBinding {
    pub keystroke: Seq<char>,
    pub context: Option<Seq<char>>,
    pub action: SpecCommand,
}

impl View for KeyBinding {
    type V = SpecBinding;

    open spec fn view(&self) -> SpecBinding {
        SpecBinding {
            keystroke: self.keystroke@,
            context: opt_str_view(self.context),
            action: self.action@,
        }
    }
}

/// One entry a load left out, with the reason.
#[derive(Debug, PartialEq, Eq)]
pub struct SkippedEntry {
    pub keystroke: String,
    pub context: Option<String>,
    pub error: LoadError,
}

/// The model of a `SkippedEntry`.
pub struct SpecSkipped {
    pub keystroke: Seq<char>,
    pub context: Option<Seq<char>>,
    pub error: SpecLoadError,
}

impl View for SkippedEntry {
    type V = SpecSkipped;

    open spec fn view(&self) -> SpecSkipped {
        SpecSkipped {
            keystroke: self.keystroke@,
            context: opt_str_view(self.context),
            error: self.error@,
        }
    }
}

/// The model of a sequence of installed bindings.
pub open spec fn kb_view(bs: Seq<KeyBinding>) -> Seq<SpecBinding> {
    Seq::new(bs.len(), |i: int| bs[i]@)
}

/// The model of a sequence of skipped entries.
pub open spec fn sk_view(es: Seq<SkippedEntry>) -> Seq<SpecSkipped> {
    Seq::new(es.len(), |i: int| es[i]@)
}

/// The bindings one block installs: its resolvable entries, in the
/// block's order, each under the block's context filter.
pub open spec fn spec_block_bindings(
    kinds: Seq<SpecKind>,
    ctx: Option<Seq<char>>,
    pairs: Seq<(Seq<char>, SpecValue)>,
) -> Seq<SpecBinding>
    decreases pairs.len(),
{
    if pairs.len() == 0 {
        Seq::empty()
    } else {
        let rest = spec_block_bindings(kinds, ctx, pairs.drop_last());
        match spec_entry_outcome(kinds, pairs.last().1) {
            Ok(c) => rest.push(
                SpecBinding { keystroke: pairs.last().0, context: ctx, action: c },
            ),
            Err(_) => rest,
        }
    }
}

/// The entries one block skips, with their reasons, in the block's order.
pub open spec fn spec_block_skipped(
    kinds: Seq<SpecKind>,
    ctx: Option<Seq<char>>,
    pairs: Seq<(Seq<char>, SpecValue)>,
) -> Seq<SpecSkipped>
    decreases pairs.len(),
{
    if pairs.len() == 0 {
        Seq::empty()
    } else {
        let rest = spec_block_skipped(kinds, ctx, pairs.drop_last());
        match spec_entry_outcome(kinds, pairs.last().1) {
            Ok(_) => rest,
            Err(e) => rest.push(
                SpecSkipped { keystroke: pairs.last().0, context: ctx, error: e },
            ),
        }
    }
}

/// The bindings a whole file installs, block by block.
pub open spec fn spec_file_bindings(kinds: Seq<SpecKind>, blocks: Seq<SpecBlock>) -> Seq<
    SpecBinding,
>
    decreases blocks.len(),
{
    if blocks.len() == 0 {
        Seq::empty()
    } else {
        spec_file_bindings(kinds, blocks.drop_last()) + spec_block_bindings(
            kinds,
            blocks.last().context,
            blocks.last().bindings,
        )
    }
}

/// The entries a whole file skips, block by block.
pub open spec fn spec_file_skipped(kinds: Seq<SpecKind>, blocks: Seq<SpecBlock>) -> Seq<
    SpecSkipped,
>
    decreases blocks.len(),
{
    if blocks.len() == 0 {
        Seq::empty()
    } else {
        spec_file_skipped(kinds, blocks.drop_last()) + spec_block_skipped(
            kinds,
            blocks.last().context,
            blocks.last().bindings,
        )
    }
}

/// The loader's context: the command registry, the binding table, and the
/// record of entries the latest load skipped.
#[derive(Debug)]
pub struct KeymapCx {
    registry: Registry,
    bindings: Vec<KeyBinding>,
    skipped: Vec<SkippedEntry>,
}

/// The model of a `KeymapCx`.
pub struct SpecCx {
    pub kinds: Seq<SpecKind>,
    pub bindings: Seq<SpecBinding>,
    pub skipped: Seq<SpecSkipped>,
}

impl View for KeymapCx {
    type V = SpecCx;

    closed spec fn view(&self) -> SpecCx {
        SpecCx {
            kinds: self.registry@,
            bindings: kb_view(self.bindings@),
            skipped: sk_view(self.skipped@),
        }
    }
}

impl KeymapCx {
    /// A context around a registry, with nothing installed yet.
    pub fn new(registry: Registry) -> (r: KeymapCx)
        ensures
            r@.kinds == registry@,
            r@.bindings == Seq::<SpecBinding>::empty(),
            r@.skipped == Seq::<SpecSkipped>::empty(),
    {
        let r = KeymapCx { registry, bindings: Vec::new(), skipped: Vec::new() };
        proof {
            assert(r@.bindings =~= Seq::<SpecBinding>::empty());
            assert(r@.skipped =~= Seq::<SpecSkipped>::empty());
        }
        r
    }

    /// The context's registry.
    pub fn registry(&self) -> (r: &Registry)
        ensures
            r@ == self@.kinds,
    {
        &self.registry
    }

    /// The installed bindings, in installation order.
    pub fn bindings(&self) -> (r: &Vec<KeyBinding>)
        ensures
            kb_view(r@) == self@.bindings,
    {
        &self.bindings
    }

    /// The entries the latest load skipped, in file order.
    pub fn skipped(&self) -> (r: &Vec<SkippedEntry>)
        ensures
            sk_view(r@) == self@.skipped,
    {
        &self.skipped
    }
}

/// A copy of an optional context string.
fn clone_opt_str(o: &Option<String>) -> (r: Option<String>)
    ensures
        opt_str_view(r) == opt_str_view(*o),
{
    match o {
        Some(s) => Some(s.clone()),
        None => None,
    }
}

/// Resolve one descriptor against the registry, or say why the entry is
/// skipped.
fn resolve_action(registry: &Registry, action: KeymapAction) -> (r: Result<
    ResolvedCommand,
    LoadError,
>)
    ensures
        r matches Ok(c) ==> spec_entry_outcome(registry@, action@) == Ok::<
            SpecCommand,
            SpecLoadError,
        >(c@),
        r matches Err(e) ==> spec_entry_outcome(registry@, action@) == Err::<
            SpecCommand,
            SpecLoadError,
        >(e@),
{
    let KeymapAction(av) = action;
    match av {
        JsonValue::Str(name) => match registry.resolve(name.as_str(), None) {
            Ok(c) => Ok(c),
            Err(e) => Err(LoadError::Resolve(e)),
        },
        JsonValue::Null => Ok(ResolvedCommand::NoOp),
        JsonValue::Array(items) => {
            proof {
                lemma_view_array(items);
            }
            if items.len() == 2 {
                let mut items = items;
                let payload = items.pop().unwrap();
                let first = items.pop().unwrap();
                match first {
                    JsonValue::Str(name) => match registry.resolve(name.as_str(), Some(payload)) {
                        Ok(c) => Ok(c),
                        Err(e) => Err(LoadError::Resolve(e)),
                    },
                    _ => Err(LoadError::MalformedDescriptor),
                }
            } else {
                Err(LoadError::MalformedDescriptor)
            }
        },
        _ => Err(LoadError::MalformedDescriptor),
    }
}

impl KeymapFile {
    /// Install this file into a context: resolve each entry of each block
    /// in file order, append each resolved binding to the table, and
    /// record each skipped entry with its reason. No entry aborts another:
    /// the table gains exactly the file's resolvable entries.
    #[verifier::loop_isolation(false)]
    #[verifier::rlimit(80)]
    pub fn add_to_cx(self, cx: &mut KeymapCx)
        ensures
            final(cx)@.kinds == old(cx)@.kinds,
            final(cx)@.bindings == old(cx)@.bindings + spec_file_bindings(
                old(cx)@.kinds,
                self@,
            ),
            final(cx)@.skipped == old(cx)@.skipped + spec_file_skipped(old(cx)@.kinds, self@),
    {
        let ghost ks = cx@.kinds;
        let ghost filev = self@;
        let ghost pre_b = cx@.bindings;
        let ghost pre_s = cx@.skipped;
        let KeymapFile(blocks) = self;
        let mut rest = blocks;
        let ghost mut i: int = 0;
        proof {
            assert(filev.take(0) =~= Seq::<SpecBlock>::empty());
            assert(filev.skip(0) =~= filev);
            assert(cx@.bindings =~= pre_b + spec_file_bindings(ks, filev.take(0)));
            assert(cx@.skipped =~= pre_s + spec_file_skipped(ks, filev.take(0)));
        }
        while rest.len() > 0
            invariant
                0 <= i <= filev.len(),
                i + rest@.len() == filev.len(),
                blocks_view(rest@) =~= filev.skip(i),
                cx@.kinds == ks,
                cx@.bindings =~= pre_b + spec_file_bindings(ks, filev.take(i)),
                cx@.skipped =~= pre_s + spec_file_skipped(ks, filev.take(i)),
            decreases rest@.len(),
        {
            let ghost pre = rest@;
            let b = rest.remove(0);
            proof {
                assert(filev[i] == blocks_view(pre)[0]);
                assert(filev[i] == b@);
                assert(rest@ =~= pre.drop_first());
                assert forall|j: int| 0 <= j < rest@.len() implies blocks_view(rest@)[j]
                    == filev.skip(i + 1)[j] by {
                    assert(rest@[j] == pre[j + 1]);
                    assert(blocks_view(rest@)[j] == blocks_view(pre)[j + 1]);
                    assert(blocks_view(pre)[j + 1] == filev.skip(i)[j + 1]);
                    assert(filev.skip(i)[j + 1] == filev[i + 1 + j]);
                    assert(filev.skip(i + 1)[j] == filev[i + 1 + j]);
                };
                assert(blocks_view(rest@) =~= filev.skip(i + 1));
                assert(filev.take(i + 1) =~= filev.take(i).push(filev[i]));
                assert(filev.take(i + 1).drop_last() =~= filev.take(i));
                assert(filev.take(i + 1).last() == filev[i]);
            }
            let KeymapBlock { context, bindings } = b;
            let ghost bctx = opt_str_view(context);
            let ghost bpairs = bindings_view(bindings@);
            proof {
                assert(filev[i] == SpecBlock { context: bctx, bindings: bpairs });
            }
            let mut brest = bindings;
            let ghost mut jj: int = 0;
            proof {
                assert(bpairs.take(0) =~= Seq::<(Seq<char>, SpecValue)>::empty());
                assert(bpairs.skip(0) =~= bpairs);
                assert(cx@.bindings + spec_block_bindings(ks, bctx, bpairs.take(0)) =~= cx@.bindings);
                assert(cx@.skipped + spec_block_skipped(ks, bctx, bpairs.take(0)) =~= cx@.skipped);
            }
            while brest.len() > 0
                invariant
                    0 <= jj <= bpairs.len(),
                    jj + brest@.len() == bpairs.len(),
                    bindings_view(brest@) =~= bpairs.skip(jj),
                    cx@.kinds == ks,
                    cx@.bindings =~= pre_b + spec_file_bindings(ks, filev.take(i))
                        + spec_block_bindings(ks, bctx, bpairs.take(jj)),
                    cx@.skipped =~= pre_s + spec_file_skipped(ks, filev.take(i))
                        + spec_block_skipped(ks, bctx, bpairs.take(jj)),
                    opt_str_view(context) == bctx,
                decreases brest@.len(),
            {
                let ghost bpre = brest@;
                let (keystroke, act) = brest.remove(0);
                proof {
                    assert(bpairs[jj] == bindings_view(bpre)[0]);
                    assert(bpairs[jj] == (keystroke@, act@));
                    assert(brest@ =~= bpre.drop_first());
                    assert forall|j: int| 0 <= j < brest@.len() implies bindings_view(brest@)[j]
                        == bpairs.skip(jj + 1)[j] by {
                        assert(brest@[j] == bpre[j + 1]);
                        assert(bindings_view(brest@)[j] == bindings_view(bpre)[j + 1]);
                        assert(bindings_view(bpre)[j + 1] == bpairs.skip(jj)[j + 1]);
                        assert(bpairs.skip(jj)[j + 1] == bpairs[jj + 1 + j]);
                        assert(bpairs.skip(jj + 1)[j] == bpairs[jj + 1 + j]);
                    };
                    assert(bindings_view(brest@) =~= bpairs.skip(jj + 1));
                    assert(bpairs.take(jj + 1) =~= bpairs.take(jj).push(bpairs[jj]));
                    assert(bpairs.take(jj + 1).drop_last() =~= bpairs.take(jj));
                    assert(bpairs.take(jj + 1).last() == bpairs[jj]);
                }
                let ctx2 = clone_opt_str(&context);
                let outcome = resolve_action(&cx.registry, act);
                match outcome {
                    Ok(cmd) => {
                        let ghost prev = cx.bindings@;
                        let entry = KeyBinding { keystroke, context: ctx2, action: cmd };
                        let ghost ev = entry@;
                        cx.bindings.push(entry);
                        proof {
                            assert(kb_view(cx.bindings@) =~= kb_view(prev).push(ev));
                            assert(spec_block_bindings(ks, bctx, bpairs.take(jj + 1))
                                == spec_block_bindings(ks, bctx, bpairs.take(jj)).push(
                                SpecBinding {
                                    keystroke: bpairs[jj].0,
                                    context: bctx,
                                    action: spec_entry_outcome(ks, bpairs[jj].1)->Ok_0,
                                },
                            ));
                            assert(spec_block_skipped(ks, bctx, bpairs.take(jj + 1))
                                == spec_block_skipped(ks, bctx, bpairs.take(jj)));
                            assert(cx@.bindings =~= pre_b + spec_file_bindings(ks, filev.take(i))
                                + spec_block_bindings(ks, bctx, bpairs.take(jj + 1)));
                            jj = jj + 1;
                        }
                    },
                    Err(e) => {
                        let ghost prev = cx.skipped@;
                        let entry = SkippedEntry { keystroke, context: ctx2, error: e };
                        let ghost ev = entry@;
                        cx.skipped.push(entry);
                        proof {
                            assert(sk_view(cx.skipped@) =~= sk_view(prev).push(ev));
                            assert(spec_block_skipped(ks, bctx, bpairs.take(jj + 1))
                                == spec_block_skipped(ks, bctx, bpairs.take(jj)).push(
                                SpecSkipped {
                                    keystroke: bpairs[jj].0,
                                    context: bctx,
                                    error: spec_entry_outcome(ks, bpairs[jj].1)->Err_0,
                                },
                            ));
                            assert(spec_block_bindings(ks, bctx, bpairs.take(jj + 1))
                                == spec_block_bindings(ks, bctx, bpairs.take(jj)));
                            assert(cx@.skipped =~= pre_s + spec_file_skipped(ks, filev.take(i))
                                + spec_block_skipped(ks, bctx, bpairs.take(jj + 1)));
                            jj = jj + 1;
                        }
                    },
                }
            }
            proof {
                assert(bpairs.take(jj) =~= bpairs);
                assert(spec_file_bindings(ks, filev.take(i + 1)) == spec_file_bindings(
                    ks,
                    filev.take(i),
                ) + spec_block_bindings(ks, bctx, bpairs));
                assert(spec_file_skipped(ks, filev.take(i + 1)) == spec_file_skipped(
                    ks,
                    filev.take(i),
                ) + spec_block_skipped(ks, bctx, bpairs));
                assert(cx@.bindings =~= pre_b + spec_file_bindings(ks, filev.take(i + 1)));
                assert(cx@.skipped =~= pre_s + spec_file_skipped(ks, filev.take(i + 1)));
                i = i + 1;
            }
        }
        proof {
            assert(filev.take(i) =~= filev);
        }
    }
}

/// Load a keymap from source text into a context. On success the table
/// holds exactly the file's resolvable entries, wholesale replacing any
/// earlier load, and the skipped entries of this load are recorded. On a
/// syntactic or structural fault nothing changes and the error says which
/// fault; no entry-local problem ever fails a load.
pub fn load(content: &str, cx: &mut KeymapCx) -> (r: Result<(), LoadError>)
    ensures
        final(cx)@.kinds == old(cx)@.kinds,
        parse_of(content@) is None ==> (r matches Err(e) && e@ == SpecLoadError::Parse
            && *final(cx) == *old(cx)),
        parse_of(content@) matches Some(v) ==> match spec_file_of(v) {
            Err(se) => r matches Err(e) && e@ == SpecLoadError::Schema(se) && *final(cx) == *old(cx),
            Ok(blocks) => r is Ok && final(cx)@.bindings == spec_file_bindings(
                old(cx)@.kinds,
                blocks,
            ) && final(cx)@.skipped == spec_file_skipped(old(cx)@.kinds, blocks),
        },
{
    match KeymapFile::parse(content) {
        Err(e) => Err(e),
        Ok(file) => {
            cx.bindings.clear();
            cx.skipped.clear();
            proof {
                assert(cx@.bindings =~= Seq::<SpecBinding>::empty());
                assert(cx@.skipped =~= Seq::<SpecSkipped>::empty());
            }
            let ghost pre = cx@;
            file.add_to_cx(cx);
            proof {
                assert(cx@.bindings =~= pre.bindings + spec_file_bindings(pre.kinds, file@));
                assert(pre.bindings + spec_file_bindings(pre.kinds, file@) =~= spec_file_bindings(
                    pre.kinds,
                    file@,
                ));
                assert(pre.skipped + spec_file_skipped(pre.kinds, file@) =~= spec_file_skipped(
                    pre.kinds,
                    file@,
                ));
            }
            Ok(())
        },
    }
}

} // verus!
