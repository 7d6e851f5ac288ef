//! A DAO treasury: a bonding-curve subscription engine selling governance
//! tokens, a staked-token manager with vesting, and an allocation manager that
//! rebalances treasury holdings by provisioning liquidity.

pub mod fixed;
pub mod types;
pub mod ledger;
pub mod staked;
pub mod subscription;
pub mod oracle;
pub mod allocation;
pub mod support;
pub mod laws;
