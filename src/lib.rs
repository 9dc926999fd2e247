// The judging pipeline of an online judge: reading the sandbox's reports,
// building its command lines, scoring a submission's tests, and deciding
// each step of a queue delivery. I/O stays with the caller.
use vstd::prelude::*;

// Language profiles, task manifests and the global configuration.
pub mod config;
// The handling of one queue delivery, from decoding to the ack.
pub mod consumer;
// The sandbox's meta file.
pub mod meta;
// Submission requests and queue messages.
pub mod request;
// Command lines for the sandbox and the checker.
pub mod sandbox;
// Per-test and per-subtask scoring.
pub mod scoring;
// Decimal numbers and template text.
pub mod text;
// Verdicts of single executions.
pub mod verdict;

verus! {

} // verus!
