//! Process-level glue: exit statuses, the executor's thread count, and the
//! process-wide write-once slots for the log schema and the resolved
//! configuration paths.

use vstd::prelude::*;

verus! {

/// Relies on exitcode::OK: the success exit status, 0.
#[verifier::external_body]
fn code_ok() -> (r: i32)
    ensures
        r == 0,
{
    exitcode::OK
}

/// Relies on exitcode::CONFIG: the configuration-error exit status, 78.
#[verifier::external_body]
fn code_config() -> (r: i32)
    ensures
        r == 78,
{
    exitcode::CONFIG
}

/// Chooses the process exit status: 0 on success, 78 when the
/// configuration was at fault.
pub fn exit_code(success: bool) -> (r: i32)
    ensures
        success ==> r == 0,
        !success ==> r == 78,
{
    if success {
        code_ok()
    } else {
        code_config()
    }
}

/// Relies on num_cpus::get: the number of logical CPUs, always at least 1.
#[verifier::external_body]
fn logical_cpus() -> (r: usize)
    ensures
        r >= 1,
{
    num_cpus::get()
}

/// Resolves the executor's thread count: an explicit request must be at
/// least 1 and is taken as given; otherwise the CPU count decides, with a
/// minimum of 1.
pub fn resolve_thread_count(requested: Option<usize>) -> (r: Result<usize, ()>)
    ensures
        requested matches Some(t) ==> (t >= 1 ==> r == Ok::<usize, ()>(t)),
        requested == Some(0usize) ==> r is Err,
        requested is None ==> (r is Ok && r->Ok_0 >= 1),
{
    match requested {
        Some(t) => {
            if t < 1 {
                Err(())
            } else {
                Ok(t)
            }
        },
        None => {
            let cpus = logical_cpus();
            if cpus < 1 {
                Ok(1)
            } else {
                Ok(cpus)
            }
        },
    }
}

/// A process-wide write-once slot: set once, it refuses every later write,
/// handing the rejected value back unchanged.
pub struct WriteOnce<T> {
    value: Option<T>,
}

impl<T> WriteOnce<T> {
    /// What the slot holds.
    pub closed spec fn view(self) -> Option<T> {
        self.value
    }

    /// An empty slot.
    pub fn new() -> (s: WriteOnce<T>)
        ensures
            s@ is None,
    {
        WriteOnce { value: None }
    }

    /// Publishes a value into an empty slot; a second write fails loudly,
    /// returning the rejected value and leaving the slot as it was.
    pub fn set(&mut self, v: T) -> (r: Result<(), T>)
        ensures
            old(self)@ is None ==> (r is Ok && final(self)@ == Some(v)),
            old(self)@ is Some ==> (r == Err::<(), T>(v) && final(self)@ == old(self)@),
    {
        match self.value {
            None => {
                self.value = Some(v);
                Ok(())
            },
            Some(_) => Err(v),
        }
    }

    /// Reads the slot.
    pub fn get(&self) -> (r: Option<&T>)
        ensures
            r is Some <==> self@ is Some,
            r matches Some(v) ==> self@ == Some(*v),
    {
        self.value.as_ref()
    }
}

} // verus!
