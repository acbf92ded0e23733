//! The verification entry: what is put before the receipt verifier, and what
//! is made of its answer.
//!
//! The verifier itself is a collaborator outside this library. The guest
//! hands it a journal, a seal and a method identifier, and reduces whatever
//! comes back to a yes or a no.

use vstd::prelude::*;

verus! {

/// What the verifier is asked to check: that `seal` attests a run of the
/// method named by `method_id` with the public output `journal`.
#[derive(Debug)]
pub struct VerifyRequest {
    /// The public output of the computation, in words.
    pub journal: Vec<u32>,
    /// The cryptographic seal over it, in words.
    pub seal: Vec<u32>,
    /// The identifier of the method that is claimed to have run, in bytes.
    pub method_id: Vec<u8>,
}

impl VerifyRequest {
    /// A request made of copies of the three inputs.
    pub fn new(journal: &[u32], seal: &[u32], method_id: &[u8]) -> (req: Self)
        ensures
            req.journal@ == journal@,
            req.seal@ == seal@,
            req.method_id@ == method_id@,
    {
        let mut j: Vec<u32> = Vec::new();
        j.extend_from_slice(journal);
        let mut s: Vec<u32> = Vec::new();
        s.extend_from_slice(seal);
        let mut m: Vec<u8> = Vec::new();
        m.extend_from_slice(method_id);
        VerifyRequest { journal: j, seal: s, method_id: m }
    }
}

/// The request that the entry function makes when the guest starts: a
/// journal of the one word 0, a seal of the one word 1, and a method
/// identifier of the one byte 1.
pub fn boot_request() -> (req: VerifyRequest)
    ensures
        req.journal@ == seq![0u32],
        req.seal@ == seq![1u32],
        req.method_id@ == seq![1u8],
{
    let journal: [u32; 1] = [0];
    let seal: [u32; 1] = [1];
    let method_id: [u8; 1] = [1];
    let req = VerifyRequest::new(journal.as_slice(), seal.as_slice(), method_id.as_slice());
    assert(req.journal@ =~= seq![0u32]);
    assert(req.seal@ =~= seq![1u32]);
    assert(req.method_id@ =~= seq![1u8]);
    req
}

/// Reduces the verifier's answer to a boolean: `true` where it accepted the
/// receipt, `false` for every error, whatever the error says.
pub fn verdict<E>(outcome: &Result<(), E>) -> (accepted: bool)
    ensures
        accepted == outcome is Ok,
{
    match outcome {
        Ok(_) => true,
        Err(_) => false,
    }
}

} // verus!
