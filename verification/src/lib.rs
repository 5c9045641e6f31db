//! Live presence registry for a group chat service.
//!
//! The crate tracks which users are connected to which chat groups, keeps one
//! outbound queue handle per connection, decides what a connection's
//! lifecycle driver does next, and holds the decisions of the sign-in flow.
//!
//! - [`types`]: identifiers and small value types.
//! - [`queue`]: the sending half of a connection's outbound queue.
//! - [`conn_id`]: allocation of connection ids.
//! - [`group`]: the live state of one group, and its model.
//! - [`registry`]: the map of live groups: connect, disconnect, kick.
//! - [`presence`]: how often a user's coming and going is announced.
//! - [`driver`]: the lifecycle of one connection as a state machine.
//! - [`auth`]: key cache, key selection and issuer check for identity tokens.
//!
//! Contracts are stated over mathematical views of the data. What rests on
//! the behaviour of another crate is confined to a few small functions whose
//! doc comments say what is taken on trust.

pub mod types;
pub mod queue;
pub mod conn_id;
pub mod group;
pub mod registry;
pub mod presence;
pub mod driver;
pub mod auth;
