//! The configuration surface: the listening port, the worker-thread count
//! (0 means hardware parallelism), the per-thread pipeline concurrency, and
//! the protocol-version selector, of which only version 1 is implemented.

use vstd::prelude::*;

verus! {

/// The server's configuration values.
#[derive(Clone, Copy, Debug)]
pub struct SponkCli {
    pub http_version: usize,
    pub port: u16,
    pub concurrency: usize,
    pub threads: usize,
}

/// Relies on num_cpus::get: the number of available CPUs of the current
/// system, always at least 1.
#[verifier::external_body]
fn available_parallelism() -> (r: usize)
    ensures
        r >= 1,
{
    num_cpus::get()
}

/// The worker-thread count a configuration asks for: the explicit count, or
/// the hardware parallelism when 0 is given.
pub fn worker_threads(cli: &SponkCli) -> (r: usize)
    ensures
        cli.threads != 0 ==> r == cli.threads,
        cli.threads == 0 ==> r >= 1,
{
    if cli.threads == 0 {
        available_parallelism()
    } else {
        cli.threads
    }
}

/// Whether the protocol-version selector names the one implemented protocol.
/// Any other value is a fatal startup error, before any server state exists.
pub fn supported_version(v: usize) -> (r: bool)
    ensures
        r == (v == 1),
{
    v == 1
}

} // verus!
