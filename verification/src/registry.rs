//! The command registry and the action resolver.
//!
//! A registry maps command names to kind descriptors; a descriptor says
//! what payload its kind expects and how a dynamic value is read back into
//! the kind's own typed payload. Resolution turns a command name and an
//! optional payload into a `ResolvedCommand`, or says exactly why it
//! cannot.

use vstd::prelude::*;

use crate::errors::ResolveError;
use crate::errors::SpecResolveError;
use crate::value::lemma_view_object;
use crate::value::obj_get;
use crate::value::opt_value_view;
use crate::value::obj_lookup;
use crate::value::pairs_view;
use crate::value::str_eq;
use crate::value::strs_view;
use crate::value::view_value;
use crate::value::SpecValue;
use crate::value::JsonValue;

verus! {

/// The name of the sentinel command that does nothing. A descriptor of
/// null resolves to it, and the bare name resolves without a registry
/// lookup.
pub open spec fn spec_no_op_name() -> Seq<char> {
    "no_op"@
}

/// The name of the sentinel command that does nothing.
pub fn no_op_name() -> (r: &'static str)
    ensures
        r@ == spec_no_op_name(),
{
    "no_op"
}

/// What payload a command kind expects of its descriptor.
#[derive(Debug, PartialEq, Eq)]
pub enum PayloadShape {
    /// The command takes no payload: a bare name resolves it.
    NoPayload,
    /// The command takes any present value as its payload, kept dynamic.
    AnyPayload,
    /// The command takes an object with exactly the named fields, each
    /// holding a signed 64-bit integer.
    IntRecord(Vec<String>),
}

/// The model of a `PayloadShape`.
pub enum SpecShape {
    NoPayload,
    AnyPayload,
    IntRecord(Seq<Seq<char>>),
}

impl View for PayloadShape {
    type V = SpecShape;

    open spec fn view(&self) -> SpecShape {
        match self {
            PayloadShape::NoPayload => SpecShape::NoPayload,
            PayloadShape::AnyPayload => SpecShape::AnyPayload,
            PayloadShape::IntRecord(fields) => SpecShape::IntRecord(strs_view(fields@)),
        }
    }
}

/// The typed payload a resolved command carries.
#[derive(Debug, PartialEq, Eq)]
pub enum CommandPayload {
    /// The kind expects no payload.
    Empty,
    /// The named integer fields, in the kind's declared order.
    Ints(Vec<(String, i64)>),
    /// The payload as the file gave it, for a kind that accepts any value.
    Dynamic(JsonValue),
}

/// The model of a sequence of named integer fields.
pub open spec fn ints_view(ps: Seq<(String, i64)>) -> Seq<(Seq<char>, int)> {
    Seq::new(ps.len(), |i: int| (ps[i].0@, ps[i].1 as int))
}

/// The model of a `CommandPayload`.
pub enum SpecPayload {
    Empty,
    Ints(Seq<(Seq<char>, int)>),
    Dynamic(SpecValue),
}

impl View for CommandPayload {
    type V = SpecPayload;

    open spec fn view(&self) -> SpecPayload {
        match self {
            CommandPayload::Empty => SpecPayload::Empty,
            CommandPayload::Ints(ps) => SpecPayload::Ints(ints_view(ps@)),
            CommandPayload::Dynamic(v) => SpecPayload::Dynamic(view_value(*v)),
        }
    }
}

/// A command a descriptor resolved to: the no-op sentinel, or a named
/// command carrying its typed payload.
#[derive(Debug, PartialEq, Eq)]
pub enum ResolvedCommand {
    NoOp,
    Act { name: String, payload: CommandPayload },
}

/// The model of a `ResolvedCommand`.
pub enum SpecCommand {
    NoOp,
    Act { name: Seq<char>, payload: SpecPayload },
}

impl View for ResolvedCommand {
    type V = SpecCommand;

    open spec fn view(&self) -> SpecCommand {
        match self {
            ResolvedCommand::NoOp => SpecCommand::NoOp,
            ResolvedCommand::Act { name, payload } => SpecCommand::Act {
                name: name@,
                payload: payload@,
            },
        }
    }
}

/// The kind tag a command answers to: the sentinel's name for the no-op,
/// the registered name otherwise.
pub open spec fn spec_command_name(c: SpecCommand) -> Seq<char> {
    match c {
        SpecCommand::NoOp => spec_no_op_name(),
        SpecCommand::Act { name, .. } => name,
    }
}

impl ResolvedCommand {
    /// The kind tag this command answers to.
    pub fn name(&self) -> (r: &str)
        ensures
            r@ == spec_command_name(self@),
    {
        match self {
            ResolvedCommand::NoOp => no_op_name(),
            ResolvedCommand::Act { name, .. } => name.as_str(),
        }
    }

    /// Whether this command is the no-op sentinel.
    pub fn is_no_op(&self) -> (r: bool)
        ensures
            r == (self@ is NoOp),
    {
        match self {
            ResolvedCommand::NoOp => true,
            ResolvedCommand::Act { .. } => false,
        }
    }
}

/// One registered command kind: a name and the payload it expects.
#[derive(Debug)]
pub struct CommandKind {
    pub name: String,
    pub shape: PayloadShape,
}

/// The model of a `CommandKind`.
pub struct SpecKind {
    pub name: Seq<char>,
    pub shape: SpecShape,
}

/// The registry of command kinds, populated once before any load and only
/// read during resolution.
#[derive(Debug)]
pub struct Registry {
    kinds: Vec<CommandKind>,
}

impl View for Registry {
    type V = Seq<SpecKind>;

    closed spec fn view(&self) -> Seq<SpecKind> {
        Seq::new(
            self.kinds@.len(),
            |i: int| SpecKind { name: self.kinds@[i].name@, shape: self.kinds@[i].shape@ },
        )
    }
}

/// The kind registered under `name`: the first entry whose name matches.
pub open spec fn spec_lookup_kind(kinds: Seq<SpecKind>, name: Seq<char>) -> Option<SpecShape>
    decreases kinds.len(),
{
    if kinds.len() == 0 {
        None
    } else if kinds[0].name == name {
        Some(kinds[0].shape)
    } else {
        spec_lookup_kind(kinds.drop_first(), name)
    }
}

/// Whether some kind is registered under `name`.
pub open spec fn spec_registered(kinds: Seq<SpecKind>, name: Seq<char>) -> bool {
    spec_lookup_kind(kinds, name) is Some
}

/// A kind lookup skips any prefix free of the name.
pub proof fn lemma_lookup_kind_skip(kinds: Seq<SpecKind>, name: Seq<char>, i: int)
    requires
        0 <= i <= kinds.len(),
        forall|j: int| 0 <= j < i ==> kinds[j].name != name,
    ensures
        spec_lookup_kind(kinds, name) == spec_lookup_kind(kinds.skip(i), name),
    decreases i,
{
    if i > 0 {
        lemma_lookup_kind_skip(kinds.drop_first(), name, i - 1);
        assert(kinds.skip(i) =~= kinds.drop_first().skip(i - 1));
    } else {
        assert(kinds.skip(0) =~= kinds);
    }
}

/// What reading a payload back through a kind's expected shape yields, if
/// the payload fits the shape.
pub open spec fn spec_deserialize(shape: SpecShape, payload: Option<SpecValue>) -> Option<
    SpecPayload,
> {
    match shape {
        SpecShape::NoPayload => match payload {
            None => Some(SpecPayload::Empty),
            Some(_) => None,
        },
        SpecShape::AnyPayload => match payload {
            Some(v) => Some(SpecPayload::Dynamic(v)),
            None => None,
        },
        SpecShape::IntRecord(fields) => match payload {
            Some(SpecValue::Object(obj)) => if spec_record_matches(obj, fields) {
                Some(SpecPayload::Ints(spec_record_ints(obj, fields)))
            } else {
                None
            },
            _ => None,
        },
    }
}

/// Whether an object payload carries exactly the declared fields, each an
/// integer.
pub open spec fn spec_record_matches(
    obj: Seq<(Seq<char>, SpecValue)>,
    fields: Seq<Seq<char>>,
) -> bool {
    &&& obj.len() == fields.len()
    &&& forall|i: int|
        0 <= i < fields.len() ==> (#[trigger] obj_lookup(obj, fields[i])) matches Some(
            SpecValue::Int(_),
        )
}

/// The declared fields of a matching object payload, with their values,
/// in the kind's declared order.
pub open spec fn spec_record_ints(
    obj: Seq<(Seq<char>, SpecValue)>,
    fields: Seq<Seq<char>>,
) -> Seq<(Seq<char>, int)> {
    Seq::new(fields.len(), |i: int| (fields[i], obj_lookup(obj, fields[i])->Some_0->Int_0))
}

/// What resolving a name with an optional payload yields: the no-op for
/// the bare sentinel; otherwise the registered kind's reading of the
/// payload, or the exact reason it fails.
pub open spec fn spec_resolve(
    kinds: Seq<SpecKind>,
    name: Seq<char>,
    payload: Option<SpecValue>,
) -> Result<SpecCommand, SpecResolveError> {
    if payload is None && name == spec_no_op_name() {
        Ok(SpecCommand::NoOp)
    } else {
        match spec_lookup_kind(kinds, name) {
            None => Err(SpecResolveError::UnknownCommand(name)),
            Some(shape) => match spec_deserialize(shape, payload) {
                Some(p) => Ok(SpecCommand::Act { name, payload: p }),
                None => Err(SpecResolveError::PayloadMismatch),
            },
        }
    }
}

impl Registry {
    /// An empty registry.
    pub fn new() -> (r: Registry)
        ensures
            r@ == Seq::<SpecKind>::empty(),
    {
        let r = Registry { kinds: Vec::new() };
        proof {
            assert(r@ =~= Seq::<SpecKind>::empty());
        }
        r
    }

    /// Register a command kind under a fresh name. The registry is
    /// append-only: every kind is registered before any load runs.
    pub fn register(&mut self, name: String, shape: PayloadShape)
        requires
            !spec_registered(old(self)@, name@),
        ensures
            final(self)@ == old(self)@.push(SpecKind { name: name@, shape: shape@ }),
    {
        let ghost n = name@;
        let ghost s = shape@;
        let ghost pre = self@;
        self.kinds.push(CommandKind { name, shape });
        proof {
            assert(self@ =~= pre.push(SpecKind { name: n, shape: s }));
        }
    }

    /// Whether a kind is registered under `name`.
    pub fn contains(&self, name: &str) -> (r: bool)
        ensures
            r == spec_registered(self@, name@),
    {
        self.find_kind(name).is_some()
    }

    /// Resolve a command name and an optional payload to a command.
    /// Succeeds exactly when the bare sentinel is named, or the name is
    /// registered and the payload fits the kind's expected shape; the
    /// error otherwise says which of the two went wrong.
    #[verifier::loop_isolation(false)]
    pub fn resolve(&self, name: &str, payload: Option<JsonValue>) -> (r: Result<
        ResolvedCommand,
        ResolveError,
    >)
        ensures
            r matches Ok(c) ==> spec_resolve(self@, name@, opt_value_view(payload)) == Ok::<
                SpecCommand,
                SpecResolveError,
            >(c@),
            r matches Err(e) ==> spec_resolve(self@, name@, opt_value_view(payload)) == Err::<
                SpecCommand,
                SpecResolveError,
            >(e@),
    {
        let ghost ks = self@;
        let ghost pv = opt_value_view(payload);
        if payload.is_none() && str_eq(name, no_op_name()) {
            return Ok(ResolvedCommand::NoOp);
        }
        let idx = match self.find_kind(name) {
            Some(k) => k,
            None => {
                return Err(ResolveError::UnknownCommand(name.to_owned()));
            },
        };
        let ghost shape = ks[idx as int].shape;
        proof {
            assert(spec_lookup_kind(ks, name@) == Some(shape));
        }
        match (&self.kinds[idx].shape, payload) {
            (PayloadShape::NoPayload, None) => Ok(
                ResolvedCommand::Act { name: name.to_owned(), payload: CommandPayload::Empty },
            ),
            (PayloadShape::NoPayload, Some(_)) => Err(ResolveError::PayloadMismatch),
            (PayloadShape::AnyPayload, Some(v)) => Ok(
                ResolvedCommand::Act { name: name.to_owned(), payload: CommandPayload::Dynamic(v) },
            ),
            (PayloadShape::AnyPayload, None) => Err(ResolveError::PayloadMismatch),
            (PayloadShape::IntRecord(fields), Some(JsonValue::Object(obj))) => {
                let ghost fs = strs_view(fields@);
                let ghost ov = pairs_view(obj@);
                proof {
                    lemma_view_object(obj);
                    assert(shape == SpecShape::IntRecord(fs));
                    assert(pv == Some(SpecValue::Object(ov)));
                }
                if obj.len() != fields.len() {
                    proof {
                        assert(!spec_record_matches(ov, fs));
                    }
                    return Err(ResolveError::PayloadMismatch);
                }
                let mut ints: Vec<(String, i64)> = Vec::new();
                let mut k: usize = 0;
                while k < fields.len()
                    invariant
                        0 <= k <= fields.len(),
                        fs == strs_view(fields@),
                        fs.len() == fields@.len(),
                        ov == pairs_view(obj@),
                        ints@.len() == k,
                        forall|j: int|
                            0 <= j < k ==> (#[trigger] obj_lookup(ov, fs[j])) matches Some(
                                SpecValue::Int(_),
                            ),
                        forall|j: int|
                            0 <= j < k ==> #[trigger] ints_view(ints@)[j] == (
                                fs[j],
                                obj_lookup(ov, fs[j])->Some_0->Int_0,
                            ),
                    decreases fields.len() - k,
                {
                    let ghost pre_ints = ints@;
                    match obj_get(&obj, fields[k].as_str()) {
                        Some(v) => match v {
                            JsonValue::Int(n) => {
                                ints.push((fields[k].clone(), *n));
                                proof {
                                    assert(obj_lookup(ov, fs[k as int]) == Some(view_value(*v)));
                                    assert(forall|j: int|
                                        0 <= j < k ==> #[trigger] ints_view(ints@)[j]
                                            == ints_view(pre_ints)[j]);
                                    assert(ints_view(ints@)[k as int] == (
                                        fs[k as int],
                                        obj_lookup(ov, fs[k as int])->Some_0->Int_0,
                                    ));
                                }
                            },
                            _ => {
                                proof {
                                    assert(obj_lookup(ov, fs[k as int]) == Some(view_value(*v)));
                                    assert(!(view_value(*v) is Int));
                                    assert(!spec_record_matches(ov, fs));
                                }
                                return Err(ResolveError::PayloadMismatch);
                            },
                        },
                        None => {
                            proof {
                                assert(obj_lookup(ov, fs[k as int]) is None);
                                assert(!spec_record_matches(ov, fs));
                            }
                            return Err(ResolveError::PayloadMismatch);
                        },
                    }
                    k = k + 1;
                }
                proof {
                    assert(spec_record_matches(ov, fs));
                    assert(ints_view(ints@) =~= spec_record_ints(ov, fs));
                }
                Ok(
                    ResolvedCommand::Act {
                        name: name.to_owned(),
                        payload: CommandPayload::Ints(ints),
                    },
                )
            },
            (PayloadShape::IntRecord(_), _) => Err(ResolveError::PayloadMismatch),
        }
    }

    /// The position of the kind registered under `name`, if any.
    fn find_kind(&self, name: &str) -> (r: Option<usize>)
        ensures
            match r {
                Some(k) => k < self@.len() && self@[k as int].name == name@
                    && spec_lookup_kind(self@, name@) == Some(self@[k as int].shape),
                None => spec_lookup_kind(self@, name@) is None,
            },
    {
        let ghost ks = self@;
        let mut i: usize = 0;
        while i < self.kinds.len()
            invariant
                0 <= i <= self.kinds.len(),
                ks == self@,
                ks.len() == self.kinds@.len(),
                forall|j: int| 0 <= j < i ==> ks[j].name != name@,
            decreases self.kinds.len() - i,
        {
            if str_eq(self.kinds[i].name.as_str(), name) {
                proof {
                    lemma_lookup_kind_skip(ks, name@, i as int);
                    assert(ks.skip(i as int)[0] == ks[i as int]);
                }
                return Some(i);
            }
            i = i + 1;
        }
        proof {
            lemma_lookup_kind_skip(ks, name@, i as int);
            assert(ks.skip(i as int) =~= Seq::<SpecKind>::empty());
        }
        None
    }
}

} // verus!
