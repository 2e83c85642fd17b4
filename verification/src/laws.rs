//! The session-level laws: what loading, reinitializing and stepping
//! guarantee, stated over the same spec functions the operations' contracts
//! use.
use crate::engine::next_gen;
use crate::engine::next_gen_n;
use crate::rle::decode_ok;
use crate::rle::decode_result;
use crate::rle::msg_of;
use crate::rle::DecodeError;
use crate::session::Session;
use crate::session::Sim;
use vstd::prelude::*;

verus! {

/// Load success invariant: when the text decodes under the session's margin,
/// a reinitialize leaves an active simulation behind, so a following `draw`
/// or `step` meets its precondition.  Together with the `ensures` of `load`
/// (which reports `(true, "ok")` exactly when the text decodes) this is the
/// whole of the success invariant.
pub proof fn lemma_load_success(s: Session, text: Seq<char>, margin: nat)
    requires
        decode_ok(text, margin),
        s.reinitialized(text, margin),
    ensures
        s.sim is Some,
{
}

/// Load failure invariant: when the text does not decode, a reinitialize
/// leaves the session without a simulation and with an empty bitmap — so a
/// `step` or `draw` violates its precondition until a load succeeds — and
/// the message the decoder hands back is never empty.
pub proof fn lemma_load_failure(s: Session, text: Seq<char>, margin: nat)
    requires
        !decode_ok(text, margin),
        s.reinitialized(text, margin),
    ensures
        s.sim is None,
        s.bitmap@.len() == 0,
        decode_result(text, margin) matches Err(e) && msg_of(e).len() > 0,
{
    let e = decode_result(text, margin)->Err_0;
    DecodeError::lemma_message_nonempty(e);
}

/// Reinitialize replaces, never merges: a session reinitialized from a text
/// holds exactly the grid that text decodes to — whatever pattern, margin or
/// simulation it held before plays no part in the outcome.
pub proof fn lemma_reinitialize_replaces(s: Session, text: Seq<char>, margin: nat)
    requires
        s.reinitialized(text, margin),
        decode_ok(text, margin),
    ensures
        decode_result(text, margin) matches Ok(g) && (match s.sim {
            Some(sim) => {
                &&& sim.width as nat == g.0
                &&& sim.height as nat == g.1
                &&& sim.cells@ == g.2
                &&& sim.gens@ == 0
            },
            None => false,
        }),
{
}

/// Bitmap sizing: after any successful reinitialize the bitmap holds exactly
/// four bytes per cell of the new simulation, already before the next draw,
/// and all of them zero.
pub proof fn lemma_bitmap_sizing(s: Session, text: Seq<char>, margin: nat)
    requires
        s.reinitialized(text, margin),
        decode_ok(text, margin),
    ensures
        (match s.sim {
            Some(sim) => s.bitmap@.len() == 4 * (sim.width as int * sim.height as int)
                && forall|j: int| 0 <= j < s.bitmap@.len() ==> s.bitmap@[j] == 0u8,
            None => false,
        }),
{
    let g = decode_result(text, margin)->Ok_0;
    assert(4 * g.0 * g.1 == 4 * (g.0 * g.1)) by (nonlinear_arith);
}

/// Step monotonicity: a well-formed simulation's cells are exactly `gens`
/// generations of the grid it started from, and one more step is one more
/// application of `next_gen` — so `n` calls of `step` advance the simulation
/// by exactly `n` generations, the same `n`-fold advance the engine itself
/// defines.
pub proof fn lemma_step_monotonic(sim: Sim)
    requires
        sim.wf(),
    ensures
        sim.cells@ == next_gen_n(sim.base@, sim.width as nat, sim.height as nat, sim.gens@),
        next_gen(sim.cells@, sim.width as nat, sim.height as nat) == next_gen_n(
            sim.base@,
            sim.width as nat,
            sim.height as nat,
            sim.gens@ + 1,
        ),
{
    crate::engine::lemma_next_gen_succ(
        sim.base@,
        sim.width as nat,
        sim.height as nat,
        sim.gens@,
    );
}

} // verus!
