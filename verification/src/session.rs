//! The session: the mutable state a viewer keeps between frames — the last
//! pattern text, the decode margin, the active simulation if any, and the
//! RGBA bitmap that renders it — together with the operations that load,
//! resize, advance and render it.
use crate::engine::next_gen;
use crate::engine::next_gen_n;
use crate::engine::step_cells;
use crate::rle::decode;
use crate::rle::decode_ok;
use crate::rle::decode_result;
use crate::rle::msg_of;
use vstd::prelude::*;

verus! {

broadcast use vstd::string::to_string_from_display_ensures_for_str;

/// The active simulation: its dimensions, the row-major liveness of every
/// cell, and — as ghost history — the grid it started from and how many
/// generations have passed since.
pub struct Sim {
    pub width: usize,
    pub height: usize,
    pub cells: Vec<bool>,
    pub base: Ghost<Seq<bool>>,
    pub gens: Ghost<nat>,
}

impl Sim {
    /// Well-formed: at least one cell each way, the cell count matches the
    /// dimensions, four bytes per cell fit in a machine word, and the cells
    /// are exactly `gens` generations of the starting grid.
    pub open spec fn wf(self) -> bool {
        &&& self.width >= 1
        &&& self.height >= 1
        &&& self.cells@.len() == self.width as int * self.height as int
        &&& 4 * (self.width as int * self.height as int) <= usize::MAX
        &&& self.cells@ == next_gen_n(
            self.base@,
            self.width as nat,
            self.height as nat,
            self.gens@,
        )
    }
}

/// What the viewer reports to its caller: a success flag and a message.
pub type Status = (bool, String);

/// The attribute values a successful resize hands to the drawing surface:
/// the grid size, and an on-screen size of twice the grid in each direction.
#[derive(Clone, Copy, PartialEq, Eq, Structural, Debug)]
pub struct SurfaceSpec {
    pub width: usize,
    pub height: usize,
    pub style_width: usize,
    pub style_height: usize,
}

/// The single mutable state of the viewer.
pub struct Session {
    pub margin: usize,
    pub src: String,
    pub sim: Option<Sim>,
    pub bitmap: Vec<u8>,
}

impl Session {
    /// Well-formed: with a simulation present the bitmap holds exactly four
    /// bytes per cell; without one the bitmap is empty.
    pub open spec fn wf(self) -> bool {
        match self.sim {
            Some(sim) => sim.wf() && self.bitmap@.len() == 4 * (sim.width as int
                * sim.height as int),
            None => self.bitmap@.len() == 0,
        }
    }

    /// The state a reinitialize from `src` under `margin` leaves behind:
    /// on decode success a fresh generation-zero simulation of exactly the
    /// decoded grid and an all-zero bitmap of four bytes per cell; on decode
    /// failure no simulation and an empty bitmap.
    pub open spec fn reinitialized(self, src: Seq<char>, margin: nat) -> bool {
        match decode_result(src, margin) {
            Ok(g) => match self.sim {
                Some(sim) => {
                    &&& sim.width as nat == g.0
                    &&& sim.height as nat == g.1
                    &&& sim.cells@ == g.2
                    &&& sim.base@ == g.2
                    &&& sim.gens@ == 0
                    &&& self.bitmap@ == Seq::new(4 * g.0 * g.1, |i: int| 0u8)
                },
                None => false,
            },
            Err(_) => self.sim is None && self.bitmap@.len() == 0,
        }
    }

    /// A fresh session: default margin of 100, empty text, no simulation.
    pub fn new() -> (s: Session)
        ensures
            s.wf(),
            s.margin == 100,
            s.src@ == Seq::<char>::empty(),
            s.sim is None,
            s.bitmap@.len() == 0,
    {
        let s = Session { margin: 100, src: String::new(), sim: None, bitmap: Vec::new() };
        proof {
            assert(s.src@ =~= Seq::<char>::empty());
        }
        s
    }

    /// Decodes the stored text under the stored margin and replaces the
    /// simulation and the bitmap wholesale; nothing of the prior simulation
    /// survives, and on failure the session is left without one.
    pub fn reload(&mut self) -> (r: Result<(), String>)
        requires
            old(self).wf(),
        ensures
            final(self).wf(),
            final(self).margin == old(self).margin,
            final(self).src@ == old(self).src@,
            final(self).reinitialized(old(self).src@, old(self).margin as nat),
            r is Ok <==> decode_ok(old(self).src@, old(self).margin as nat),
            r matches Err(m) ==> ({
                &&& decode_result(old(self).src@, old(self).margin as nat) matches Err(e)
                &&& m@ == msg_of(e)
            }),
    {
        match decode(self.src.as_str(), self.margin) {
            Ok((w, h, cells)) => {
                proof {
                    crate::rle::lemma_decode_ok_wf(self.src@, self.margin as nat);
                }
                let total: usize = 4 * (w * h);
                let mut bm: Vec<u8> = Vec::new();
                let mut i: usize = 0;
                while i < total
                    invariant
                        i <= total,
                        bm@.len() == i as int,
                        forall|j: int| 0 <= j < i ==> bm@[j] == 0u8,
                    decreases total - i,
                {
                    bm.push(0u8);
                    i = i + 1;
                }
                let ghost gcells = cells@;
                self.bitmap = bm;
                self.sim = Some(
                    Sim { width: w, height: h, cells, base: Ghost(gcells), gens: Ghost(0) },
                );
                proof {
                    assert(4 * (w as int * h as int) == 4 * (w as int) * (h as int)) by (nonlinear_arith);
                    assert(self.bitmap@.len() == 4 * (w as nat) * (h as nat));
                    assert(self.bitmap@ =~= Seq::new(
                        4 * (w as nat) * (h as nat),
                        |j: int| 0u8,
                    ));
                }
                Ok(())
            },
            Err(e) => {
                self.sim = None;
                self.bitmap = Vec::new();
                Err(e.message())
            },
        }
    }

    /// Stores `text` as the new pattern source and reinitializes under the
    /// current margin; reports `(true, "ok")` exactly when the text decodes,
    /// and `(false, message)` with the decoder's description otherwise.
    pub fn load(&mut self, text: &str) -> (r: Status)
        requires
            old(self).wf(),
        ensures
            final(self).wf(),
            final(self).margin == old(self).margin,
            final(self).src@ == text@,
            final(self).reinitialized(text@, old(self).margin as nat),
            r.0 <==> decode_ok(text@, old(self).margin as nat),
            r.0 ==> r.1@ == "ok"@,
            !r.0 ==> ({
                &&& decode_result(text@, old(self).margin as nat) matches Err(e)
                &&& r.1@ == msg_of(e)
            }),
    {
        self.src = text.to_string();
        match self.reload() {
            Ok(()) => (true, "ok".to_string()),
            Err(m) => (false, m),
        }
    }

    /// Stores the new margin and reinitializes from the stored text; on
    /// success reports the attributes for the drawing surface: the grid's
    /// width and height, and a displayed size of twice each.
    pub fn expand(&mut self, margin: usize) -> (r: Result<SurfaceSpec, String>)
        requires
            old(self).wf(),
        ensures
            final(self).wf(),
            final(self).margin == margin,
            final(self).src@ == old(self).src@,
            final(self).reinitialized(old(self).src@, margin as nat),
            r is Ok <==> decode_ok(old(self).src@, margin as nat),
            r matches Ok(ss) ==> ({
                &&& final(self).sim matches Some(sim)
                &&& ss.width == sim.width
                &&& ss.height == sim.height
                &&& ss.style_width == 2 * sim.width
                &&& ss.style_height == 2 * sim.height
            }),
            r matches Err(m) ==> ({
                &&& decode_result(old(self).src@, margin as nat) matches Err(e)
                &&& m@ == msg_of(e)
            }),
    {
        self.margin = margin;
        match self.reload() {
            Ok(()) => match &self.sim {
                Some(sim) => {
                    proof {
                        assert(2 * sim.width as int <= usize::MAX && 2 * sim.height as int
                            <= usize::MAX) by (nonlinear_arith)
                            requires
                                sim.width >= 1,
                                sim.height >= 1,
                                4 * (sim.width as int * sim.height as int) <= usize::MAX,
                        ;
                    }
                    Ok(
                        SurfaceSpec {
                            width: sim.width,
                            height: sim.height,
                            style_width: 2 * sim.width,
                            style_height: 2 * sim.height,
                        },
                    )
                },
                None => {
                    proof {
                        assert(false);
                    }
                    Err(String::new())
                },
            },
            Err(m) => Err(m),
        }
    }

    /// Advances the active simulation by exactly one generation, in place.
    /// Calling this without an active simulation is a caller error, ruled
    /// out by precondition.
    pub fn step(&mut self)
        requires
            old(self).wf(),
            old(self).sim is Some,
        ensures
            final(self).wf(),
            final(self).margin == old(self).margin,
            final(self).src@ == old(self).src@,
            final(self).bitmap@ == old(self).bitmap@,
            ({
                &&& final(self).sim matches Some(sim)
                &&& old(self).sim matches Some(osim)
                &&& sim.width == osim.width
                &&& sim.height == osim.height
                &&& sim.base@ == osim.base@
                &&& sim.gens@ == osim.gens@ + 1
                &&& sim.cells@ == next_gen(osim.cells@, osim.width as nat, osim.height as nat)
            }),
    {
        match &mut self.sim {
            Some(sim) => {
                let next = step_cells(&sim.cells, sim.width, sim.height);
                sim.cells = next;
                proof {
                    sim.gens@ = sim.gens@ + 1;
                }
            },
            None => {
                proof {
                    assert(false);
                }
            },
        }
    }

    /// Renders the active simulation into the bitmap: for every cell index
    /// `i` the alpha byte at offset `4*i + 3` becomes 255 when the cell is
    /// alive and 0 when it is dead; the other three channels keep whatever
    /// they held.  Always reports `(true, "ok")`: handing the pixels to a
    /// surface is the caller's business and its failures are not surfaced.
    pub fn draw(&mut self) -> (r: Status)
        requires
            old(self).wf(),
            old(self).sim is Some,
        ensures
            final(self).wf(),
            final(self).margin == old(self).margin,
            final(self).src@ == old(self).src@,
            final(self).sim == old(self).sim,
            final(self).bitmap@.len() == old(self).bitmap@.len(),
            r.0 == true,
            r.1@ == "ok"@,
            ({
                &&& final(self).sim matches Some(sim)
                &&& forall|i: int|
                    0 <= i < sim.cells@.len() ==> final(self).bitmap@[4 * i + 3] == (if sim.cells@[i] {
                        255u8
                    } else {
                        0u8
                    })
            }),
            forall|j: int|
                0 <= j < final(self).bitmap@.len() && j % 4 != 3 ==> final(self).bitmap@[j] == old(
                    self,
                ).bitmap@[j],
    {
        let count: usize = match &self.sim {
            Some(sim) => sim.cells.len(),
            None => 0,
        };
        let mut i: usize = 0;
        while i < count
            invariant
                old(self).sim is Some,
                self.sim == old(self).sim,
                self.margin == old(self).margin,
                self.src@ == old(self).src@,
                self.wf(),
                (match self.sim {
                    Some(sim) => count == sim.cells@.len(),
                    None => false,
                }),
                self.bitmap@.len() == old(self).bitmap@.len(),
                i <= count,
                (match self.sim {
                    Some(sim) => forall|k: int|
                        0 <= k < i ==> self.bitmap@[4 * k + 3] == (if sim.cells@[k] {
                            255u8
                        } else {
                            0u8
                        }),
                    None => false,
                }),
                forall|j: int|
                    0 <= j < self.bitmap@.len() && j % 4 != 3 ==> self.bitmap@[j] == old(
                        self,
                    ).bitmap@[j],
            decreases count - i,
        {
            let alive: bool = match &self.sim {
                Some(sim) => sim.cells[i],
                None => false,
            };
            proof {
                let sim = self.sim->Some_0;
                assert((4 * i as int + 3) % 4 == 3) by (nonlinear_arith);
                assert(4 * i as int + 3 < self.bitmap@.len()) by (nonlinear_arith)
                    requires
                        (i as int) < sim.cells@.len(),
                        sim.cells@.len() == sim.width as int * sim.height as int,
                        self.bitmap@.len() == 4 * (sim.width as int * sim.height as int),
                ;
            }
            let off: usize = 4 * i + 3;
            if alive {
                self.bitmap[off] = 255u8;
            } else {
                self.bitmap[off] = 0u8;
            }
            i = i + 1;
        }
        (true, "ok".to_string())
    }
}

} // verus!
