//! Laws of the loader, stated and proved over the same models the
//! functions' contracts use.

use vstd::prelude::*;

use crate::keymap_file::spec_block_bindings;
use crate::keymap_file::spec_block_skipped;
use crate::keymap_file::spec_entry_outcome;
use crate::keymap_file::spec_file_bindings;
use crate::keymap_file::spec_file_skipped;
use crate::keymap_file::SpecBlock;
use crate::registry::spec_command_name;
use crate::registry::spec_lookup_kind;
use crate::registry::spec_no_op_name;
use crate::registry::SpecCommand;
use crate::registry::SpecKind;
use crate::registry::SpecPayload;
use crate::registry::SpecShape;
use crate::value::SpecValue;

verus! {

/// How many of a block's descriptors resolve.
pub open spec fn spec_block_good_count(
    kinds: Seq<SpecKind>,
    pairs: Seq<(Seq<char>, SpecValue)>,
) -> nat
    decreases pairs.len(),
{
    if pairs.len() == 0 {
        0
    } else {
        spec_block_good_count(kinds, pairs.drop_last()) + (if spec_entry_outcome(
            kinds,
            pairs.last().1,
        ) is Ok {
            1nat
        } else {
            0nat
        })
    }
}

/// How many of a file's descriptors resolve.
pub open spec fn spec_file_good_count(kinds: Seq<SpecKind>, blocks: Seq<SpecBlock>) -> nat
    decreases blocks.len(),
{
    if blocks.len() == 0 {
        0
    } else {
        spec_file_good_count(kinds, blocks.drop_last()) + spec_block_good_count(
            kinds,
            blocks.last().bindings,
        )
    }
}

/// How many descriptors a file has in all.
pub open spec fn spec_file_entry_count(blocks: Seq<SpecBlock>) -> nat
    decreases blocks.len(),
{
    if blocks.len() == 0 {
        0
    } else {
        spec_file_entry_count(blocks.drop_last()) + blocks.last().bindings.len()
    }
}

proof fn lemma_block_cardinality(kinds: Seq<SpecKind>, ctx: Option<Seq<char>>, pairs: Seq<(Seq<
    char,
>, SpecValue)>)
    ensures
        spec_block_bindings(kinds, ctx, pairs).len() == spec_block_good_count(kinds, pairs),
        spec_block_bindings(kinds, ctx, pairs).len() + spec_block_skipped(
            kinds,
            ctx,
            pairs,
        ).len() == pairs.len(),
    decreases pairs.len(),
{
    if pairs.len() > 0 {
        lemma_block_cardinality(kinds, ctx, pairs.drop_last());
    }
}

/// Law: a load installs exactly the resolvable descriptors — null, a
/// known command name, or a `[known-command, fitting-payload]` pair — and
/// skips exactly the rest: an unresolvable entry takes nothing away from
/// its siblings. The table's cardinality is the count of resolvable
/// descriptors, and table and skip record together account for every
/// descriptor of the file.
pub proof fn lemma_table_cardinality(kinds: Seq<SpecKind>, blocks: Seq<SpecBlock>)
    ensures
        spec_file_bindings(kinds, blocks).len() == spec_file_good_count(kinds, blocks),
        spec_file_bindings(kinds, blocks).len() + spec_file_skipped(kinds, blocks).len()
            == spec_file_entry_count(blocks),
    decreases blocks.len(),
{
    if blocks.len() > 0 {
        lemma_table_cardinality(kinds, blocks.drop_last());
        lemma_block_cardinality(kinds, blocks.last().context, blocks.last().bindings);
    }
}

/// Law: loading is deterministic, so loading the same well-formed file
/// twice against the same registry installs equal binding tables: `load`'s
/// contract fixes the table as a function of the source text and the
/// registry alone.
pub proof fn lemma_load_idempotent(
    kinds: Seq<SpecKind>,
    blocks: Seq<SpecBlock>,
    table1: Seq<crate::keymap_file::SpecBinding>,
    table2: Seq<crate::keymap_file::SpecBinding>,
)
    requires
        table1 == spec_file_bindings(kinds, blocks),
        table2 == spec_file_bindings(kinds, blocks),
    ensures
        table1 == table2,
{
}

/// Whether a command carries no payload: the no-op, or a command of a
/// zero-payload kind.
pub open spec fn spec_command_payload_empty(c: SpecCommand) -> bool {
    match c {
        SpecCommand::NoOp => true,
        SpecCommand::Act { payload, .. } => payload is Empty,
    }
}

/// Law: a block whose descriptors are all bare strings naming registered
/// zero-payload commands (or the no-op sentinel) round-trips: it installs
/// one command per entry, in order, under the block's context, whose kind
/// tag is the descriptor's string exactly and which carries no payload.
/// A file of such blocks installs their tables in file order.
pub proof fn lemma_zero_payload_round_trip(
    kinds: Seq<SpecKind>,
    ctx: Option<Seq<char>>,
    pairs: Seq<(Seq<char>, SpecValue)>,
)
    requires
        forall|i: int| 0 <= i < pairs.len() ==> (#[trigger] pairs[i].1) is Str,
        forall|i: int|
            0 <= i < pairs.len() ==> (spec_lookup_kind(kinds, (#[trigger] pairs[i].1)->Str_0)
                == Some(SpecShape::NoPayload) || pairs[i].1->Str_0 == spec_no_op_name()),
    ensures
        spec_block_bindings(kinds, ctx, pairs).len() == pairs.len(),
        forall|i: int|
            0 <= i < pairs.len() ==> {
                let entry = #[trigger] spec_block_bindings(kinds, ctx, pairs)[i];
                entry.keystroke == pairs[i].0 && entry.context == ctx && spec_command_name(
                    entry.action,
                ) == pairs[i].1->Str_0 && spec_command_payload_empty(entry.action)
            },
    decreases pairs.len(),
{
    if pairs.len() > 0 {
        lemma_zero_payload_round_trip(kinds, ctx, pairs.drop_last());
        let last = pairs.last();
        assert(spec_entry_outcome(kinds, last.1) is Ok);
        let entries = spec_block_bindings(kinds, ctx, pairs);
        let prev = spec_block_bindings(kinds, ctx, pairs.drop_last());
        assert(entries == prev.push(
            crate::keymap_file::SpecBinding {
                keystroke: last.0,
                context: ctx,
                action: spec_entry_outcome(kinds, last.1)->Ok_0,
            },
        ));
        assert(spec_command_name(spec_entry_outcome(kinds, last.1)->Ok_0) == last.1->Str_0);
        assert(spec_command_payload_empty(spec_entry_outcome(kinds, last.1)->Ok_0));
        assert(forall|i: int|
            0 <= i < pairs.drop_last().len() ==> #[trigger] pairs.drop_last()[i] == pairs[i]);
        assert(forall|i: int| 0 <= i < prev.len() ==> #[trigger] entries[i] == prev[i]);
    }
}

/// Law, at file level: a file whose descriptors are all bare strings
/// naming registered zero-payload commands (or the no-op sentinel)
/// installs one command per shortcut — none is skipped.
pub proof fn lemma_zero_payload_file_count(kinds: Seq<SpecKind>, blocks: Seq<SpecBlock>)
    requires
        forall|b: int, i: int|
            0 <= b < blocks.len() && 0 <= i < blocks[b].bindings.len() ==> (
            #[trigger] blocks[b].bindings[i].1) is Str,
        forall|b: int, i: int|
            0 <= b < blocks.len() && 0 <= i < blocks[b].bindings.len() ==> (spec_lookup_kind(
                kinds,
                (#[trigger] blocks[b].bindings[i].1)->Str_0,
            ) == Some(SpecShape::NoPayload) || blocks[b].bindings[i].1->Str_0
                == spec_no_op_name()),
    ensures
        spec_file_bindings(kinds, blocks).len() == spec_file_entry_count(blocks),
    decreases blocks.len(),
{
    if blocks.len() > 0 {
        let shorter = blocks.drop_last();
        assert(forall|b: int| 0 <= b < shorter.len() ==> #[trigger] shorter[b] == blocks[b]);
        lemma_zero_payload_file_count(kinds, shorter);
        let last = blocks.last();
        assert(last == blocks[blocks.len() - 1]);
        lemma_zero_payload_round_trip(kinds, last.context, last.bindings);
    }
}

} // verus!
