use ssz_codec::fork::{ForkContext, Schema, SchemaRevision};
use ssz_codec::hash::H256;

fn schema(revision: SchemaRevision, sync_subnets: u8) -> Schema {
    Schema { revision, sync_subnets }
}

#[test]
fn default_schema_is_in_force_without_forks() {
    let context = ForkContext::new(H256::zero(), Schema::mainnet());
    assert_eq!(context.schema_for(0), Schema::mainnet());
    assert_eq!(context.schema_for(74_240), Schema::mainnet());
    assert_eq!(context.schema_for(u64::MAX), Schema::mainnet());
    assert_eq!(context.default_schema(), Schema::mainnet());
    assert_eq!(context.genesis_validators_root(), H256::zero());
}

#[test]
fn lookup_falls_back_to_the_nearest_prior_fork() {
    let context = ForkContext::new(H256([7; 32]), Schema::mainnet())
        .with_fork(100, Schema::altair())
        .with_fork(200, schema(SchemaRevision::Altair, 8));
    assert_eq!(context.schema_for(0), Schema::mainnet());
    assert_eq!(context.schema_for(99), Schema::mainnet());
    assert_eq!(context.schema_for(100), Schema::altair());
    assert_eq!(context.schema_for(101), Schema::altair());
    assert_eq!(context.schema_for(199), Schema::altair());
    assert_eq!(context.schema_for(200), schema(SchemaRevision::Altair, 8));
    assert_eq!(context.schema_for(u64::MAX), schema(SchemaRevision::Altair, 8));
    assert_eq!(context.genesis_validators_root(), H256([7; 32]));
}

#[test]
fn forks_can_be_scheduled_in_any_order() {
    let context = ForkContext::new(H256::zero(), Schema::mainnet())
        .with_fork(200, schema(SchemaRevision::Altair, 8))
        .with_fork(50, schema(SchemaRevision::Base, 1))
        .with_fork(100, Schema::altair());
    assert_eq!(context.schema_for(49), Schema::mainnet());
    assert_eq!(context.schema_for(50), schema(SchemaRevision::Base, 1));
    assert_eq!(context.schema_for(150), Schema::altair());
    assert_eq!(context.schema_for(250), schema(SchemaRevision::Altair, 8));
}

#[test]
fn scheduled_fork_is_never_replaced() {
    let context = ForkContext::new(H256::zero(), Schema::mainnet())
        .with_fork(100, Schema::altair())
        .with_fork(100, schema(SchemaRevision::Base, 3));
    assert_eq!(context.schema_for(100), Schema::altair());
    assert_eq!(context.schema_for(1000), Schema::altair());
}

#[test]
fn fork_at_epoch_zero_overrides_the_default() {
    let context = ForkContext::new(H256::zero(), Schema::mainnet()).with_fork(0, Schema::altair());
    assert_eq!(context.schema_for(0), Schema::altair());
    assert_eq!(context.default_schema(), Schema::mainnet());
}

#[test]
fn named_schemas() {
    assert_eq!(Schema::mainnet(), schema(SchemaRevision::Base, 0));
    assert_eq!(Schema::altair(), schema(SchemaRevision::Altair, 4));
}
