//! A transactional file-operation engine without I/O of its own.
//!
//! A plan is a batch of file operations below one root: `mkdir`, `move`,
//! `copy`, `rename`, `trash`. The engine applies a plan as a transaction,
//! keeps a journal with what it takes to reverse every operation, rolls
//! back when an operation of an all-or-nothing plan fails, and later undoes
//! a transaction from its journal alone.
//!
//! The library decides; its caller acts. Whatever must be known of the file
//! system is asked for as a query and handed back as a recorded fact, and
//! whatever must be done to it is handed out as an action to perform. So
//! every function here is a function of its arguments, and says in its
//! contract what it returns.
//!
//! - [`path`]: lexical paths; [`text`]: numbers written out.
//! - [`model`]: the plan; [`cli`]: what the command line asks for.
//! - [`facts`]: what is known of the file system, and how a function asks
//!   for more.
//! - [`resolve`]: root confinement; [`policy`]: collision and symlink
//!   policies; [`validate`]: normalization and preflight.
//! - [`fsops`]: the primitives, as plans of unit actions.
//! - [`journal`]: the records; [`events`] and [`reporter`]: what observers
//!   see.
//! - [`job`]: one operation applied or one record reversed; [`revert`]:
//!   records reversed one after the other; [`transaction`]: the transaction
//!   manager; [`engine`]: the commands `apply` and `undo`.
//! - [`world`]: a model of the file system, and the proof that undo
//!   restores it.
//! - [`clock`] and [`ident`]: time stamps and identifiers.

pub mod cli;
pub mod clock;
pub mod engine;
pub mod events;
pub mod exit_codes;
pub mod facts;
pub mod fault;
pub mod fsops;
pub mod ident;
pub mod job;
pub mod journal;
pub mod model;
pub mod path;
pub mod policy;
pub mod reporter;
pub mod resolve;
pub mod revert;
pub mod text;
pub mod transaction;
pub mod validate;
pub mod world;
