//! Reference handling and push bookkeeping for a git proxy that serves
//! filtered views of a monorepo.

pub mod text;
pub mod assoc;
pub mod oid;
pub mod error;
pub mod refs;
pub mod changes;
pub mod remote;
pub mod namespace;
pub mod options;
pub mod update;
pub mod view;
