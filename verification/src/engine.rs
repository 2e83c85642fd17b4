//! The simulation engine: a bounded life grid in row-major order and the
//! birth/survival rule that advances it by one generation.
use vstd::prelude::*;

verus! {

/// Whether the cell at row `r`, column `c` is alive; cells outside the grid
/// are dead (the grid does not wrap).
pub open spec fn alive_at(cells: Seq<bool>, w: nat, h: nat, r: int, c: int) -> bool {
    0 <= r < h && 0 <= c < w && cells[r * w + c]
}

pub open spec fn count1(b: bool) -> nat {
    if b {
        1
    } else {
        0
    }
}

/// How many of the eight neighbours of the cell at row `r`, column `c` are alive.
pub open spec fn neighbor_count(cells: Seq<bool>, w: nat, h: nat, r: int, c: int) -> nat {
    count1(alive_at(cells, w, h, r - 1, c - 1)) + count1(alive_at(cells, w, h, r - 1, c))
        + count1(alive_at(cells, w, h, r - 1, c + 1)) + count1(alive_at(cells, w, h, r, c - 1))
        + count1(alive_at(cells, w, h, r, c + 1)) + count1(alive_at(cells, w, h, r + 1, c - 1))
        + count1(alive_at(cells, w, h, r + 1, c)) + count1(alive_at(cells, w, h, r + 1, c + 1))
}

/// The rule: a live cell survives with two or three live neighbours, a dead
/// cell is born with exactly three.
pub open spec fn next_cell(alive: bool, n: nat) -> bool {
    if alive {
        n == 2 || n == 3
    } else {
        n == 3
    }
}

/// One generation of a `w` by `h` grid held in row-major order.
pub open spec fn next_gen(cells: Seq<bool>, w: nat, h: nat) -> Seq<bool> {
    Seq::new(cells.len(), |i: int| next_cell(cells[i], neighbor_count(cells, w, h, i / w as int, i % w as int)))
}

/// `n` generations of a `w` by `h` grid.
pub open spec fn next_gen_n(cells: Seq<bool>, w: nat, h: nat, n: nat) -> Seq<bool>
    decreases n,
{
    if n == 0 {
        cells
    } else {
        next_gen(next_gen_n(cells, w, h, (n - 1) as nat), w, h)
    }
}

/// Advancing one more generation is one application of `next_gen`:
/// `n + 1` steps from a grid land exactly one generation past `n` steps.
pub proof fn lemma_next_gen_succ(cells: Seq<bool>, w: nat, h: nat, n: nat)
    ensures
        next_gen_n(cells, w, h, n + 1) == next_gen(next_gen_n(cells, w, h, n), w, h),
{
}

/// Computes one generation of the grid `cells`, `w` cells wide and `h` high.
#[verifier::rlimit(100)]
pub fn step_cells(cells: &Vec<bool>, w: usize, h: usize) -> (r: Vec<bool>)
    requires
        cells@.len() == w * h,
    ensures
        r@ == next_gen(cells@, w as nat, h as nat),
{
    let ghost gw = w as nat;
    let ghost gh = h as nat;
    let len = cells.len();
    let mut out: Vec<bool> = Vec::new();
    if len == 0 {
        proof {
            assert(out@ =~= next_gen(cells@, gw, gh));
        }
        return out;
    }
    proof {
        // a non-empty row-major grid has at least one row and one column
        assert(w >= 1 && h >= 1) by (nonlinear_arith)
            requires
                cells@.len() == w * h,
                cells@.len() > 0,
        ;
    }
    let mut i: usize = 0;
    while i < len
        invariant
            len == cells@.len(),
            cells@.len() == gw * gh,
            gw == w as nat,
            gh == h as nat,
            w >= 1,
            h >= 1,
            i <= len,
            out@.len() == i as int,
            forall|j: int|
                0 <= j < i ==> out@[j] == next_cell(
                    cells@[j],
                    neighbor_count(cells@, gw, gh, j / gw as int, j % gw as int),
                ),
        decreases len - i,
    {
        let r = i / w;
        let c = i % w;
        proof {
            vstd::arithmetic::div_mod::lemma_fundamental_div_mod(i as int, w as int);
            assert(r < h && c < w) by (nonlinear_arith)
                requires
                    i as int == w as int * r as int + c as int,
                    i < w * h,
                    c == i % w,
                    w >= 1,
                    0 <= c < w,
            ;
            // every index touched below stays inside the grid
            assert(r >= 1 ==> i >= w && w as int * (r - 1) + c == i - w) by (nonlinear_arith)
                requires
                    i as int == w as int * r as int + c as int,
                    0 <= c < w,
                    w >= 1,
            ;
            assert(r + 1 < h ==> i + w < w * h && w as int * (r + 1) + c == i + w) by (nonlinear_arith)
                requires
                    i as int == w as int * r as int + c as int,
                    0 <= c < w,
                    w >= 1,
                    r < h,
            ;
            assert(c + 1 < w ==> i + 1 < w * h) by (nonlinear_arith)
                requires
                    i as int == w as int * r as int + c as int,
                    0 <= c < w,
                    w >= 1,
                    r < h,
            ;
            assert(r + 1 < h && c + 1 < w ==> i + w + 1 < w * h) by (nonlinear_arith)
                requires
                    i as int == w as int * r as int + c as int,
                    0 <= c < w,
                    w >= 1,
                    r < h,
            ;
        }
        let up = r > 0;
        let down = r + 1 < h;
        let left = c > 0;
        let right = c + 1 < w;
        let b1 = up && left && cells[i - w - 1];
        let b2 = up && cells[i - w];
        let b3 = up && right && cells[i - w + 1];
        let b4 = left && cells[i - 1];
        let b5 = right && cells[i + 1];
        let b6 = down && left && cells[i + w - 1];
        let b7 = down && cells[i + w];
        let b8 = down && right && cells[i + w + 1];
        proof {
            assert((r as int - 1) * gw + c as int == i - w && r as int * gw + c as int == i as int
                && (r as int + 1) * gw + c as int == i + w) by (nonlinear_arith)
                requires
                    gw == w as nat,
                    i as int == w as int * r as int + c as int,
            ;
            assert(b1 == alive_at(cells@, gw, gh, r as int - 1, c as int - 1));
            assert(b2 == alive_at(cells@, gw, gh, r as int - 1, c as int));
            assert(b3 == alive_at(cells@, gw, gh, r as int - 1, c as int + 1));
            assert(b4 == alive_at(cells@, gw, gh, r as int, c as int - 1));
            assert(b5 == alive_at(cells@, gw, gh, r as int, c as int + 1));
            assert(b6 == alive_at(cells@, gw, gh, r as int + 1, c as int - 1));
            assert(b7 == alive_at(cells@, gw, gh, r as int + 1, c as int));
            assert(b8 == alive_at(cells@, gw, gh, r as int + 1, c as int + 1));
        }
        let mut n: u8 = 0;
        if b1 {
            n = n + 1;
        }
        if b2 {
            n = n + 1;
        }
        if b3 {
            n = n + 1;
        }
        if b4 {
            n = n + 1;
        }
        if b5 {
            n = n + 1;
        }
        if b6 {
            n = n + 1;
        }
        if b7 {
            n = n + 1;
        }
        if b8 {
            n = n + 1;
        }
        proof {
            assert(n as nat == neighbor_count(cells@, gw, gh, r as int, c as int));
        }
        let alive = cells[i];
        let nb = if alive {
            n == 2 || n == 3
        } else {
            n == 3
        };
        out.push(nb);
        i = i + 1;
    }
    proof {
        assert(out@ =~= next_gen(cells@, gw, gh));
    }
    out
}

} // verus!
