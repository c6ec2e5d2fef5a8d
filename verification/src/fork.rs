//! Which schema is in force when: the forks of a network, by the epoch at
//! which each begins.

use vstd::prelude::*;

use crate::hash::H256;

verus! {

/// A revision of the schema.
#[derive(Clone, Copy, Debug, PartialEq, Eq, Hash, Structural)]
pub enum SchemaRevision {
    Base,
    Altair,
}

/// The parameters that payloads are read by.
#[derive(Clone, Copy, Debug, PartialEq, Eq, Hash, Structural)]
pub struct Schema {
    pub revision: SchemaRevision,
    /// How many sync subnets a peer can subscribe to: the number of bits in
    /// use in the one byte that names them.
    pub sync_subnets: u8,
}

/// A fork: from epoch `boundary` on, `schema` is in force.
#[derive(Clone, Copy, Debug, PartialEq, Eq, Hash, Structural)]
pub struct Fork {
    pub boundary: u64,
    pub schema: Schema,
}

/// The forks begin at strictly increasing epochs.
pub open spec fn ordered(forks: Seq<Fork>) -> bool {
    forall|i: int, j: int| 0 <= i < j < forks.len() ==> forks[i].boundary < forks[j].boundary
}

/// The schema in force at epoch `boundary`: that of the last fork that has
/// begun by then, and the default one before the first fork.
pub open spec fn active_schema(default_schema: Schema, forks: Seq<Fork>, boundary: u64) -> Schema
    decreases forks.len(),
{
    if forks.len() == 0 {
        default_schema
    } else if forks.last().boundary <= boundary {
        forks.last().schema
    } else {
        active_schema(default_schema, forks.drop_last(), boundary)
    }
}

/// The number of forks that begin before epoch `boundary`, which is where a
/// fork at that epoch belongs among them.
pub open spec fn slot(forks: Seq<Fork>, boundary: u64) -> nat
    decreases forks.len(),
{
    if forks.len() == 0 {
        0
    } else if forks.last().boundary < boundary {
        forks.len()
    } else {
        slot(forks.drop_last(), boundary)
    }
}

/// The forks with one more scheduled. A fork at an epoch that already has one
/// changes nothing: what was scheduled stays.
pub open spec fn scheduled(forks: Seq<Fork>, fork: Fork) -> Seq<Fork> {
    let at = slot(forks, fork.boundary) as int;
    if at < forks.len() && forks[at].boundary == fork.boundary {
        forks
    } else {
        forks.insert(at, fork)
    }
}

/// Where `slot` points: everything before it begins earlier, everything from
/// it on does not.
pub proof fn lemma_slot(forks: Seq<Fork>, boundary: u64)
    requires
        ordered(forks),
    ensures
        slot(forks, boundary) <= forks.len(),
        forall|i: int| 0 <= i < slot(forks, boundary) ==> (#[trigger] forks[i]).boundary < boundary,
        forall|i: int|
            slot(forks, boundary) <= i < forks.len() ==> (#[trigger] forks[i]).boundary >= boundary,
    decreases forks.len(),
{
    if forks.len() > 0 {
        let rest = forks.drop_last();
        let last = forks.len() - 1;
        if forks.last().boundary >= boundary {
            assert forall|i: int, j: int| 0 <= i < j < rest.len() implies rest[i].boundary
                < rest[j].boundary by {
                assert(rest[i] == forks[i] && rest[j] == forks[j]);
            }
            lemma_slot(rest, boundary);
            assert forall|i: int| 0 <= i < slot(forks, boundary) implies (#[trigger] forks[i]).boundary
                < boundary by {
                assert(rest[i] == forks[i]);
            }
            assert forall|i: int| slot(forks, boundary) <= i < forks.len() implies (
            #[trigger] forks[i]).boundary >= boundary by {
                if i < last {
                    assert(rest[i] == forks[i]);
                }
            }
        } else {
            assert forall|i: int| 0 <= i < slot(forks, boundary) implies (#[trigger] forks[i]).boundary
                < boundary by {
                if i < last {
                    assert(forks[i].boundary < forks[last].boundary);
                }
            }
        }
    }
}

/// Scheduling a fork keeps the forks in order.
pub proof fn lemma_scheduled_ordered(forks: Seq<Fork>, fork: Fork)
    requires
        ordered(forks),
    ensures
        ordered(scheduled(forks, fork)),
{
    lemma_slot(forks, fork.boundary);
    let at = slot(forks, fork.boundary) as int;
    let after = scheduled(forks, fork);
    if !(at < forks.len() && forks[at].boundary == fork.boundary) {
        assert forall|i: int, j: int| 0 <= i < j < after.len() implies after[i].boundary
            < after[j].boundary by {
            let before_i = if i < at { i } else { i - 1 };
            let before_j = if j < at { j } else { j - 1 };
            if i != at {
                assert(after[i] == forks[before_i]);
            }
            if j != at {
                assert(after[j] == forks[before_j]);
            }
        }
    }
}

/// Before the first fork has begun, the default schema is in force.
pub proof fn lemma_default_before_first_fork(
    default_schema: Schema,
    forks: Seq<Fork>,
    boundary: u64,
)
    requires
        forall|i: int| 0 <= i < forks.len() ==> (#[trigger] forks[i]).boundary > boundary,
    ensures
        active_schema(default_schema, forks, boundary) == default_schema,
    decreases forks.len(),
{
    if forks.len() > 0 {
        let rest = forks.drop_last();
        assert(forks[forks.len() - 1].boundary > boundary);
        assert forall|i: int| 0 <= i < rest.len() implies (#[trigger] rest[i]).boundary
            > boundary by {
            assert(rest[i] == forks[i]);
        }
        lemma_default_before_first_fork(default_schema, rest, boundary);
    }
}

/// Once a fork has begun, the schema in force is that of the nearest fork at
/// or before the epoch: the one that has begun and that no other fork that
/// has begun comes after.
pub proof fn lemma_nearest_prior_fork(
    default_schema: Schema,
    forks: Seq<Fork>,
    boundary: u64,
    nearest: int,
)
    requires
        ordered(forks),
        0 <= nearest < forks.len(),
        forks[nearest].boundary <= boundary,
        forall|j: int|
            0 <= j < forks.len() && (#[trigger] forks[j]).boundary <= boundary ==> forks[j].boundary
                <= forks[nearest].boundary,
    ensures
        active_schema(default_schema, forks, boundary) == forks[nearest].schema,
    decreases forks.len(),
{
    let last = forks.len() - 1;
    if forks[last].boundary <= boundary {
        assert(forks[last].boundary <= forks[nearest].boundary);
        if nearest < last {
            assert(forks[nearest].boundary < forks[last].boundary);
        }
    } else {
        let rest = forks.drop_last();
        assert forall|i: int, j: int| 0 <= i < j < rest.len() implies rest[i].boundary
            < rest[j].boundary by {
            assert(rest[i] == forks[i] && rest[j] == forks[j]);
        }
        assert(rest[nearest] == forks[nearest]);
        assert forall|j: int|
            0 <= j < rest.len() && (#[trigger] rest[j]).boundary <= boundary implies rest[j].boundary
            <= rest[nearest].boundary by {
            assert(rest[j] == forks[j]);
        }
        lemma_nearest_prior_fork(default_schema, rest, boundary, nearest);
    }
}

/// A fork changes nothing before it begins: at every earlier epoch the schema
/// in force is what it was before the fork was scheduled.
pub proof fn lemma_fork_is_not_retroactive(
    default_schema: Schema,
    forks: Seq<Fork>,
    fork: Fork,
    boundary: u64,
)
    requires
        ordered(forks),
        boundary < fork.boundary,
    ensures
        active_schema(default_schema, scheduled(forks, fork), boundary) == active_schema(
            default_schema,
            forks,
            boundary,
        ),
{
    let after = scheduled(forks, fork);
    let at = slot(forks, fork.boundary) as int;
    lemma_slot(forks, fork.boundary);
    lemma_scheduled_ordered(forks, fork);
    if after != forks {
        let begun = slot(forks, (boundary + 1) as u64) as int;
        lemma_slot(forks, (boundary + 1) as u64);
        if begun == 0 {
            lemma_default_before_first_fork(default_schema, forks, boundary);
            assert forall|i: int| 0 <= i < after.len() implies (#[trigger] after[i]).boundary
                > boundary by {
                if i < at {
                    assert(after[i] == forks[i]);
                } else if i > at {
                    assert(after[i] == forks[i - 1]);
                }
            }
            lemma_default_before_first_fork(default_schema, after, boundary);
        } else {
            let nearest = begun - 1;
            assert(forks[nearest].boundary <= boundary);
            assert(nearest < at) by {
                if nearest >= at {
                    assert(forks[nearest].boundary >= fork.boundary);
                }
            }
            assert(after[nearest] == forks[nearest]);
            assert forall|j: int|
                0 <= j < forks.len() && (#[trigger] forks[j]).boundary <= boundary implies forks[j].boundary
                <= forks[nearest].boundary by {
                if j > nearest {
                    assert(forks[j].boundary >= boundary + 1);
                } else if j < nearest {
                    assert(forks[j].boundary < forks[nearest].boundary);
                }
            }
            lemma_nearest_prior_fork(default_schema, forks, boundary, nearest);
            assert forall|j: int|
                0 <= j < after.len() && (#[trigger] after[j]).boundary <= boundary implies after[j].boundary
                <= after[nearest].boundary by {
                if j < at {
                    assert(after[j] == forks[j]);
                } else if j > at {
                    assert(after[j] == forks[j - 1]);
                }
            }
            lemma_nearest_prior_fork(default_schema, after, boundary, nearest);
        }
    }
}

/// A fork is in force from the epoch at which it begins, unless another fork
/// was scheduled at that epoch before it.
pub proof fn lemma_fork_is_in_force(default_schema: Schema, forks: Seq<Fork>, fork: Fork)
    requires
        ordered(forks),
        forall|i: int| 0 <= i < forks.len() ==> (#[trigger] forks[i]).boundary != fork.boundary,
    ensures
        active_schema(default_schema, scheduled(forks, fork), fork.boundary) == fork.schema,
{
    let after = scheduled(forks, fork);
    let at = slot(forks, fork.boundary) as int;
    lemma_slot(forks, fork.boundary);
    lemma_scheduled_ordered(forks, fork);
    if at < forks.len() {
        assert(forks[at].boundary != fork.boundary);
    }
    assert(after == forks.insert(at, fork));
    assert(after[at] == fork);
    assert forall|j: int|
        0 <= j < after.len() && (#[trigger] after[j]).boundary <= fork.boundary implies after[j].boundary
        <= after[at].boundary by {}
    lemma_nearest_prior_fork(default_schema, after, fork.boundary, at);
}

/// The forks of one network: its genesis validators root, the schema that it
/// starts with, and the forks that replace it, each from its epoch on.
///
/// A context is put together once and read from then on. Many codecs may
/// share one.
pub struct ForkContext {
    genesis_validators_root: H256,
    default_schema: Schema,
    forks: Vec<Fork>,
}

impl ForkContext {
    #[verifier::type_invariant]
    spec fn well_formed(&self) -> bool {
        ordered(self.forks@)
    }

    /// The schema in force until the first fork.
    pub closed spec fn spec_default_schema(&self) -> Schema {
        self.default_schema
    }

    /// The root that tells this network from others.
    pub closed spec fn spec_genesis_validators_root(&self) -> H256 {
        self.genesis_validators_root
    }

    /// The forks, in the order of their epochs.
    pub closed spec fn forks(&self) -> Seq<Fork> {
        self.forks@
    }

    /// The schema in force at epoch `boundary`.
    pub open spec fn spec_schema_for(&self, boundary: u64) -> Schema {
        active_schema(self.spec_default_schema(), self.forks(), boundary)
    }

    /// A network with no fork scheduled: the default schema is in force at
    /// every epoch.
    pub fn new(genesis_validators_root: H256, default_schema: Schema) -> (context: ForkContext)
        ensures
            context.spec_genesis_validators_root() == genesis_validators_root,
            context.spec_default_schema() == default_schema,
            context.forks() == Seq::<Fork>::empty(),
            ordered(context.forks()),
    {
        ForkContext { genesis_validators_root, default_schema, forks: Vec::new() }
    }

    /// The same network with `schema` in force from epoch `boundary` on, until
    /// the next fork. Where a fork is already scheduled at that epoch, it
    /// stays and nothing changes.
    pub fn with_fork(self, boundary: u64, schema: Schema) -> (context: ForkContext)
        ensures
            context.spec_genesis_validators_root() == self.spec_genesis_validators_root(),
            context.spec_default_schema() == self.spec_default_schema(),
            context.forks() == scheduled(self.forks(), Fork { boundary, schema }),
            ordered(context.forks()),
    {
        proof {
            use_type_invariant(&self);
            lemma_scheduled_ordered(self.forks@, Fork { boundary, schema });
        }
        let genesis_validators_root = self.genesis_validators_root;
        let default_schema = self.default_schema;
        let mut forks = self.forks;
        let ghost before = forks@;
        let mut at: usize = forks.len();
        assert(before.take(at as int) =~= before);
        while at > 0 && forks[at - 1].boundary >= boundary
            invariant
                at <= forks@.len(),
                forks@ == before,
                slot(before, boundary) == slot(before.take(at as int), boundary),
            decreases at,
        {
            assert(before.take(at as int).drop_last() =~= before.take(at - 1));
            at -= 1;
        }
        if at < forks.len() && forks[at].boundary == boundary {
        } else {
            forks.insert(at, Fork { boundary, schema });
        }
        ForkContext { genesis_validators_root, default_schema, forks }
    }

    /// The schema in force at epoch `boundary`. The forks that it is looked up
    /// in are in the order of their epochs, no two of them at the same one.
    pub fn schema_for(&self, boundary: u64) -> (schema: Schema)
        ensures
            schema == self.spec_schema_for(boundary),
            ordered(self.forks()),
    {
        proof {
            use_type_invariant(self);
        }
        let mut at: usize = self.forks.len();
        assert(self.forks@.take(at as int) =~= self.forks@);
        while at > 0 && self.forks[at - 1].boundary > boundary
            invariant
                at <= self.forks@.len(),
                active_schema(self.default_schema, self.forks@, boundary) == active_schema(
                    self.default_schema,
                    self.forks@.take(at as int),
                    boundary,
                ),
            decreases at,
        {
            assert(self.forks@.take(at as int).drop_last() =~= self.forks@.take(at - 1));
            at -= 1;
        }
        if at == 0 {
            self.default_schema
        } else {
            self.forks[at - 1].schema
        }
    }

    pub fn genesis_validators_root(&self) -> (root: H256)
        ensures
            root == self.spec_genesis_validators_root(),
    {
        self.genesis_validators_root
    }

    pub fn default_schema(&self) -> (schema: Schema)
        ensures
            schema == self.spec_default_schema(),
    {
        self.default_schema
    }
}

impl Schema {
    /// The schema that the main network starts with.
    pub fn mainnet() -> (schema: Schema)
        ensures
            schema == (Schema { revision: SchemaRevision::Base, sync_subnets: 0 }),
    {
        Schema { revision: SchemaRevision::Base, sync_subnets: 0 }
    }

    /// The schema of the main network's first fork, with its four sync
    /// subnets.
    pub fn altair() -> (schema: Schema)
        ensures
            schema == (Schema { revision: SchemaRevision::Altair, sync_subnets: 4 }),
    {
        Schema { revision: SchemaRevision::Altair, sync_subnets: 4 }
    }
}

} // verus!
