//! The pattern decoder: a run-length text format for life patterns.
//!
//! A pattern is a sequence of runs.  A run is an optional decimal count
//! followed by `b` (dead) or `o` (alive); `$` ends a row (a count of `n`
//! ends `n` rows) and `!` ends the pattern, after which the rest of the text
//! is ignored.  A `#` or `x` met between runs skips the rest of its line —
//! comment lines and the conventional size header pass through unread — and
//! whitespace is ignored everywhere.  The decoded grid is the pattern, its
//! rows padded to the widest one, with a margin of dead cells on all four
//! sides.
use vstd::prelude::*;

verus! {

/// Why a pattern description was rejected.
#[derive(Clone, Copy, PartialEq, Eq, Structural, Debug)]
pub enum DecodeError {
    /// a character that the format does not know
    BadChar,
    /// a run count that does not fit in a machine word
    CountTooLarge,
    /// the terminator `!` never came
    Unterminated,
    /// the pattern holds no cells at all
    EmptyPattern,
    /// the padded grid or its pixel buffer would not fit in a machine word
    TooLarge,
}

/// The description that each failure carries; never empty.
pub open spec fn msg_of(e: DecodeError) -> Seq<char> {
    match e {
        DecodeError::BadChar => "unrecognized character in pattern"@,
        DecodeError::CountTooLarge => "run count too large"@,
        DecodeError::Unterminated => "pattern is not terminated"@,
        DecodeError::EmptyPattern => "pattern has no cells"@,
        DecodeError::TooLarge => "pattern too large to render"@,
    }
}

impl DecodeError {
    /// A human-readable description of the failure.
    pub fn message(&self) -> (r: String)
        ensures
            r@ == msg_of(*self),
    {
        broadcast use vstd::string::to_string_from_display_ensures_for_str;

        match self {
            DecodeError::BadChar => "unrecognized character in pattern".to_string(),
            DecodeError::CountTooLarge => "run count too large".to_string(),
            DecodeError::Unterminated => "pattern is not terminated".to_string(),
            DecodeError::EmptyPattern => "pattern has no cells".to_string(),
            DecodeError::TooLarge => "pattern too large to render".to_string(),
        }
    }

    /// Every failure description has at least one character.
    pub proof fn lemma_message_nonempty(e: DecodeError)
        ensures
            msg_of(e).len() > 0,
    {
        reveal_strlit("unrecognized character in pattern");
        reveal_strlit("run count too large");
        reveal_strlit("pattern is not terminated");
        reveal_strlit("pattern has no cells");
        reveal_strlit("pattern too large to render");
    }
}

/// The decoder's state after some prefix of the text: the finished rows, the
/// row being built, the pending run count (0 when none), whether the rest of
/// the current line is being skipped, and whether `!` has been seen.
pub struct RleState {
    pub rows: Seq<Seq<bool>>,
    pub cur: Seq<bool>,
    pub count: nat,
    pub skip: bool,
    pub done: bool,
}

pub open spec fn rle_init() -> RleState {
    RleState { rows: Seq::empty(), cur: Seq::empty(), count: 0, skip: false, done: false }
}

/// A missing count means a run of one.
pub open spec fn run_of(count: nat) -> nat {
    if count == 0 {
        1
    } else {
        count
    }
}

pub open spec fn is_digit(c: char) -> bool {
    48 <= c as u32 && c as u32 <= 57
}

pub open spec fn digit_val(c: char) -> nat {
    (c as u32 - 48) as nat
}

/// One character of input applied to the decoder's state.
pub open spec fn rle_step(st: RleState, c: char) -> Result<RleState, DecodeError> {
    if st.done {
        Ok(st)
    } else if st.skip {
        if c == '\n' {
            Ok(RleState { skip: false, ..st })
        } else {
            Ok(st)
        }
    } else if c == '#' || c == 'x' {
        Ok(RleState { skip: true, ..st })
    } else if is_digit(c) {
        if st.count > (usize::MAX - digit_val(c)) / 10 {
            Err(DecodeError::CountTooLarge)
        } else {
            Ok(RleState { count: st.count * 10 + digit_val(c), ..st })
        }
    } else if c == 'b' || c == 'o' {
        Ok(
            RleState {
                cur: st.cur + Seq::new(run_of(st.count), |j: int| c == 'o'),
                count: 0,
                ..st
            },
        )
    } else if c == '$' {
        Ok(
            RleState {
                rows: st.rows.push(st.cur) + Seq::new(
                    (run_of(st.count) - 1) as nat,
                    |j: int| Seq::<bool>::empty(),
                ),
                cur: Seq::empty(),
                count: 0,
                ..st
            },
        )
    } else if c == '!' {
        Ok(RleState { rows: st.rows.push(st.cur), cur: Seq::empty(), count: 0, done: true, ..st })
    } else if c == ' ' || c == '\t' || c == '\r' || c == '\n' {
        Ok(st)
    } else {
        Err(DecodeError::BadChar)
    }
}

/// The decoder's state after the whole text, by folding `rle_step` over it.
pub open spec fn rle_fold(s: Seq<char>) -> Result<RleState, DecodeError>
    decreases s.len(),
{
    if s.len() == 0 {
        Ok(rle_init())
    } else {
        match rle_fold(s.drop_last()) {
            Ok(st) => rle_step(st, s.last()),
            Err(e) => Err(e),
        }
    }
}

/// The widest row of the pattern.
pub open spec fn max_row(rows: Seq<Seq<bool>>) -> nat
    decreases rows.len(),
{
    if rows.len() == 0 {
        0
    } else {
        let m = max_row(rows.drop_last());
        if rows.last().len() > m {
            rows.last().len()
        } else {
            m
        }
    }
}

/// The cell at flat index `i` of the padded `w`-wide grid: alive exactly when
/// `i` falls inside the pattern area and the pattern row holds a live cell
/// there.
pub open spec fn grid_cell(rows: Seq<Seq<bool>>, margin: nat, w: nat, i: int) -> bool {
    let r = i / w as int;
    let c = i % w as int;
    &&& margin <= r < margin + rows.len()
    &&& margin <= c
    &&& c - margin < rows[r - margin].len()
    &&& rows[r - margin][c - margin]
}

/// What decoding a text with a margin yields: the padded width and height and
/// the row-major cells, or the first error.  The grid is rejected when it has
/// no cells or when its dimensions or its four-bytes-per-cell pixel buffer
/// would not fit in a machine word.
pub open spec fn decode_result(s: Seq<char>, margin: nat) -> Result<
    (nat, nat, Seq<bool>),
    DecodeError,
> {
    match rle_fold(s) {
        Err(e) => Err(e),
        Ok(st) => {
            if !st.done {
                Err(DecodeError::Unterminated)
            } else {
                let w0 = max_row(st.rows);
                let h0 = st.rows.len();
                if w0 == 0 {
                    Err(DecodeError::EmptyPattern)
                } else {
                    let w = w0 + 2 * margin;
                    let h = h0 + 2 * margin;
                    if w > usize::MAX || h > usize::MAX || w * h > usize::MAX || 4 * (w * h)
                        > usize::MAX {
                        Err(DecodeError::TooLarge)
                    } else {
                        Ok((w, h, Seq::new((w * h) as nat, |i: int| grid_cell(st.rows, margin, w, i))))
                    }
                }
            }
        },
    }
}

pub open spec fn decode_ok(s: Seq<char>, margin: nat) -> bool {
    decode_result(s, margin) is Ok
}

/// A grid that decodes successfully is well formed: at least one cell each
/// way, the cell count is width times height, and four bytes per cell fit in
/// a machine word.
pub proof fn lemma_decode_ok_wf(s: Seq<char>, margin: nat)
    requires
        decode_result(s, margin) is Ok,
    ensures
        decode_result(s, margin) matches Ok(g) && {
            &&& g.0 >= 1
            &&& g.1 >= 1
            &&& g.2.len() == g.0 * g.1
            &&& 4 * (g.0 * g.1) <= usize::MAX
        },
{
    let st = rle_fold(s)->Ok_0;
    if st.rows.len() == 0 {
        assert(max_row(st.rows) == 0);
    }
}

/// Once the fold has failed on a prefix, the whole text fails the same way.
proof fn lemma_fold_err_persists(s: Seq<char>, j: int)
    requires
        0 <= j <= s.len(),
        rle_fold(s.take(j)) is Err,
    ensures
        rle_fold(s) == rle_fold(s.take(j)),
    decreases s.len() - j,
{
    if j == s.len() {
        assert(s.take(j) =~= s);
    } else {
        assert(s.take(j + 1).drop_last() =~= s.take(j));
        assert(rle_fold(s.take(j + 1)) == rle_fold(s.take(j)));
        lemma_fold_err_persists(s, j + 1);
    }
}

/// Decodes a pattern description, returning the padded grid as
/// `(width, height, row-major cells)`, exactly as `decode_result` describes.
pub fn decode(text: &str, margin: usize) -> (res: Result<(usize, usize, Vec<bool>), DecodeError>)
    ensures
        res matches Ok(g) ==> decode_result(text@, margin as nat) == Ok::<_, DecodeError>(
            (g.0 as nat, g.1 as nat, g.2@),
        ),
        res matches Err(e) ==> decode_result(text@, margin as nat) == Err::<(nat, nat, Seq<bool>), _>(
            e,
        ),
{
    let n: usize = text.unicode_len();
    let mut rows: Vec<Vec<bool>> = Vec::new();
    let mut cur: Vec<bool> = Vec::new();
    let mut count: usize = 0;
    let mut skip: bool = false;
    let mut done: bool = false;
    let mut idx: usize = 0;
    let ghost mut grows: Seq<Seq<bool>> = Seq::empty();
    proof {
        assert(text@.take(0) =~= Seq::<char>::empty());
    }
    while idx < n
        invariant
            n == text@.len(),
            idx <= n,
            grows.len() == rows@.len(),
            forall|q: int| 0 <= q < rows@.len() ==> grows[q] == rows@[q]@,
            rle_fold(text@.take(idx as int)) == Ok::<_, DecodeError>(
                RleState {
                    rows: grows,
                    cur: cur@,
                    count: count as nat,
                    skip: skip,
                    done: done,
                },
            ),
        decreases n - idx,
    {
        let ghost prev = RleState {
            rows: grows,
            cur: cur@,
            count: count as nat,
            skip: skip,
            done: done,
        };
        let c: char = text.get_char(idx);
        proof {
            assert(text@.take(idx as int + 1).drop_last() =~= text@.take(idx as int));
            assert(text@.take(idx as int + 1).last() == c);
            assert(rle_fold(text@.take(idx as int + 1)) == rle_step(prev, c));
        }
        let u: u32 = c as u32;
        if done {
            // everything after the terminator is ignored
        } else if skip {
            if c == '\n' {
                skip = false;
            }
        } else if c == '#' || c == 'x' {
            skip = true;
        } else if 48 <= u && u <= 57 {
            let d: usize = (u - 48) as usize;
            if count > (usize::MAX - d) / 10 {
                proof {
                    lemma_fold_err_persists(text@, idx as int + 1);
                }
                return Err(DecodeError::CountTooLarge);
            }
            proof {
                vstd::arithmetic::div_mod::lemma_fundamental_div_mod(
                    (usize::MAX - d) as int,
                    10,
                );
                vstd::arithmetic::mul::lemma_mul_inequality(
                    count as int,
                    (usize::MAX - d) as int / 10,
                    10,
                );
            }
            count = count * 10 + d;
        } else if c == 'b' || c == 'o' {
            let alive: bool = c == 'o';
            let k: usize = if count == 0 {
                1
            } else {
                count
            };
            let ghost cur0 = cur@;
            let mut t: usize = 0;
            while t < k
                invariant
                    t <= k,
                    cur@ == cur0 + Seq::new(t as nat, |j: int| alive),
                decreases k - t,
            {
                cur.push(alive);
                proof {
                    assert(cur@ =~= cur0 + Seq::new(t as nat + 1, |j: int| alive));
                }
                t = t + 1;
            }
            proof {
                assert(Seq::new(k as nat, |j: int| alive) =~= Seq::new(
                    run_of(prev.count),
                    |j: int| c == 'o',
                ));
            }
            count = 0;
        } else if c == '$' {
            let k: usize = if count == 0 {
                1
            } else {
                count
            };
            let ghost rows0 = grows;
            let ghost cur0 = cur@;
            rows.push(cur);
            cur = Vec::new();
            proof {
                grows = grows.push(cur0);
            }
            let ghost base = grows;
            let mut t: usize = 1;
            proof {
                assert(grows =~= base + Seq::new(0, |j: int| Seq::<bool>::empty()));
            }
            while t < k
                invariant
                    1 <= t <= k,
                    k >= 1,
                    grows.len() == rows@.len(),
                    forall|q: int| 0 <= q < rows@.len() ==> grows[q] == rows@[q]@,
                    grows == base + Seq::new((t - 1) as nat, |j: int| Seq::<bool>::empty()),
                decreases k - t,
            {
                rows.push(Vec::new());
                proof {
                    grows = grows.push(Seq::empty());
                    assert(grows =~= base + Seq::new(t as nat, |j: int| Seq::<bool>::empty()));
                }
                t = t + 1;
            }
            proof {
                assert(grows =~= rows0.push(cur0) + Seq::new(
                    (run_of(prev.count) - 1) as nat,
                    |j: int| Seq::<bool>::empty(),
                ));
            }
            count = 0;
        } else if c == '!' {
            let ghost cur0 = cur@;
            rows.push(cur);
            cur = Vec::new();
            proof {
                grows = grows.push(cur0);
            }
            count = 0;
            done = true;
        } else if c == ' ' || c == '\t' || c == '\r' || c == '\n' {
            // whitespace between runs is ignored
        } else {
            proof {
                lemma_fold_err_persists(text@, idx as int + 1);
            }
            return Err(DecodeError::BadChar);
        }
        idx = idx + 1;
    }
    proof {
        assert(text@.take(n as int) =~= text@);
    }
    if !done {
        return Err(DecodeError::Unterminated);
    }
    let h0: usize = rows.len();
    let mut w0: usize = 0;
    let mut t: usize = 0;
    while t < h0
        invariant
            h0 == rows@.len(),
            grows.len() == rows@.len(),
            forall|q: int| 0 <= q < rows@.len() ==> grows[q] == rows@[q]@,
            t <= h0,
            w0 as nat == max_row(grows.take(t as int)),
        decreases h0 - t,
    {
        let l: usize = rows[t].len();
        if l > w0 {
            w0 = l;
        }
        proof {
            assert(grows.take(t as int + 1).drop_last() =~= grows.take(t as int));
            assert(grows.take(t as int + 1).last() == rows@[t as int]@);
        }
        t = t + 1;
    }
    proof {
        assert(grows.take(h0 as int) =~= grows);
    }
    if w0 == 0 {
        return Err(DecodeError::EmptyPattern);
    }
    let m2: usize = match margin.checked_mul(2) {
        Some(v) => v,
        None => {
            return Err(DecodeError::TooLarge);
        },
    };
    let w: usize = match w0.checked_add(m2) {
        Some(v) => v,
        None => {
            return Err(DecodeError::TooLarge);
        },
    };
    let h: usize = match h0.checked_add(m2) {
        Some(v) => v,
        None => {
            return Err(DecodeError::TooLarge);
        },
    };
    let wh: usize = match w.checked_mul(h) {
        Some(v) => v,
        None => {
            return Err(DecodeError::TooLarge);
        },
    };
    let total: usize = match wh.checked_mul(4) {
        Some(v) => v,
        None => {
            return Err(DecodeError::TooLarge);
        },
    };
    proof {
        assert(4 * (w as int * h as int) == wh as int * 4);
    }
    let mut cells: Vec<bool> = Vec::new();
    let mut i: usize = 0;
    while i < wh
        invariant
            wh as int == w as int * h as int,
            w >= 1,
            w as int == w0 + m2,
            h as int == h0 + m2,
            m2 as int == 2 * margin as int,
            h0 == grows.len(),
            h0 == rows@.len(),
            forall|q: int| 0 <= q < rows@.len() ==> grows[q] == rows@[q]@,
            i <= wh,
            cells@.len() == i as int,
            forall|j: int|
                0 <= j < i ==> cells@[j] == grid_cell(grows, margin as nat, w as nat, j),
        decreases wh - i,
    {
        let r: usize = i / w;
        let c: usize = i % w;
        proof {
            vstd::arithmetic::div_mod::lemma_fundamental_div_mod(i as int, w as int);
            assert(r < h) by (nonlinear_arith)
                requires
                    i as int == w as int * r as int + c as int,
                    (i as int) < w as int * h as int,
                    0 <= c < w,
                    w >= 1,
            ;
        }
        let alive: bool;
        if r >= margin && r - margin < h0 && c >= margin {
            let rr: usize = r - margin;
            let cc: usize = c - margin;
            if cc < rows[rr].len() {
                alive = rows[rr][cc];
            } else {
                alive = false;
            }
        } else {
            alive = false;
        }
        proof {
            assert(alive == grid_cell(grows, margin as nat, w as nat, i as int));
        }
        cells.push(alive);
        i = i + 1;
    }
    proof {
        assert(cells@ =~= Seq::new(
            (w as nat * h as nat) as nat,
            |j: int| grid_cell(grows, margin as nat, w as nat, j),
        ));
    }
    Ok((w, h, cells))
}

} // verus!
