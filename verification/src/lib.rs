//! A work queue that speaks the beanstalkd protocol: the parts that decide and
//! compute, with their contracts.
//!
//! * `proto`, `parse`, `codec`, `response`, `stats`: the wire protocol. A codec
//!   cuts a byte stream into frames; `stream`, `announcing`, `sending`, `framing`,
//!   `wording` and `reading` say what holds of it as a whole.
//! * `engine`: the queue itself, a deterministic state machine that is handed
//!   the time and what happened, and hands back replies. What it does is stated
//!   over `rules::Model`, the queue without any index: `steps` says what each
//!   event does to a model, `inv` and `settle` what holds in between, and
//!   `api` holds the plain types of its interface. `journal`, `restart` and
//!   `unseen` say what the journal is good for: no job is lost, a log that is
//!   given the journal brings the jobs back, and no client can tell whether one
//!   is kept. What each command is for is said in plain terms, over jobs, tubes
//!   and connections: `handout` who is handed which job, `asking` what reserve
//!   and the peeks find, `intake` what put, use, watch and ignore do, `effects`
//!   and `kicked` what becomes of a job that is given back, put aside or kicked,
//!   `callers` what comes of connections, `ageing` what the passing of time does,
//!   and `figures` that reports tell the truth. `answers` says that a command is answered once, `refused` that one
//!   that is refused changes nothing, `resting` that a tick leaves nothing due,
//!   and `repeatable` that one history leads to one state.
//! * `reply`, `load`, `latency`: the side of a load generator that needs no
//!   network.
//! * `buf` holds what is taken on trust of the `bytes` crate; `ms`, `ordset`,
//!   `scan` and `text` are small tools.

pub mod ageing;
pub mod announcing;
pub mod answers;
pub mod api;
pub mod asking;
pub mod buf;
pub mod callers;
pub mod codec;
pub mod effects;
pub mod engine;
pub mod figures;
pub mod framing;
pub mod handout;
pub mod intake;
pub mod inv;
pub mod journal;
pub mod kicked;
pub mod latency;
pub mod load;
pub mod model;
pub mod ms;
pub mod ordset;
pub mod parse;
pub mod proto;
pub mod reading;
pub mod refused;
pub mod repeatable;
pub mod reply;
pub mod response;
pub mod restart;
pub mod resting;
pub mod rules;
pub mod scan;
pub mod sending;
pub mod settle;
pub mod stats;
pub mod steps;
pub mod stream;
pub mod text;
pub mod unseen;
pub mod wording;
