//! The serialized heart of the demonstration run: each task appends its
//! greeting line to a shared in-memory buffer through the guard, one
//! task at a time. The concurrent scheduler around it is an external
//! collaborator; what it may not change is proved in `protocol`.

use vstd::prelude::*;

use crate::guard::ResourceGuard;
use crate::lines::hello_line;
use crate::lines::spec_hello_line;

verus! {

/// Everything standing on the resource after tasks `0..n` have completed
/// in index order: their greeting lines, one after another.
pub open spec fn spec_transcript(n: nat) -> Seq<u8>
    decreases n,
{
    if n == 0 {
        Seq::empty()
    } else {
        spec_transcript((n - 1) as nat) + spec_hello_line((n - 1) as nat)
    }
}

/// Runs `n` greeting tasks against a guard over an in-memory buffer, in
/// index order, and hands the buffer back: every byte of it is pinned
/// down, so no write is lost, duplicated, or interleaved with another.
pub fn run_greeting_tasks(n: u64) -> (buf: Vec<u8>)
    ensures
        buf@ == spec_transcript(n as nat),
{
    let mut g = ResourceGuard::new(Vec::<u8>::new());
    let mut i: u64 = 0;
    while i < n
        invariant
            i <= n,
            g.wf(),
            g.available(),
            g.resource()@ == spec_transcript(i as nat),
        decreases n - i,
    {
        g.with_resource(
            (move |buf: Vec<u8>| -> (out: (Vec<u8>, ()))
                ensures
                    out.0@ == buf@ + spec_hello_line(i as nat),
                {
                    let mut buf = buf;
                    let mut line = hello_line(i);
                    buf.append(&mut line);
                    (buf, ())
                }),
        );
        i = i + 1;
    }
    g.with_resource((|buf: Vec<u8>| -> (out: (Vec<u8>, Vec<u8>))
        ensures
            out.1 == buf,
        {
            (Vec::new(), buf)
        }))
}

} // verus!
