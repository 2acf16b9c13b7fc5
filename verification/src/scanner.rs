//! The window scanner, counting mode: slides the configured window over one
//! chunk of characters and produces a partial co-occurrence histogram.
//!
//! For every position whose full window `[-offset_back, +offset_front]` fits
//! inside the chunk, and whose character is accepted, every accepted
//! neighbor at a nonzero relative offset is counted at the cell addressed by
//! the two dense alphabet indices and the offset slot
//! `offset + offset_back`. Positions whose window would cross the chunk
//! boundary are skipped entirely; chunks are scanned independently.

use crate::alphabet::Alphabet;
use crate::histogram::Histogram;
use crate::histogram::cell_in_range;
use crate::histogram::flat_idx;
use crate::histogram::lemma_flat_idx_bounds;
use crate::histogram::lemma_flat_idx_injective;
use vstd::prelude::*;

verus! {

/// The full window around position `i` fits inside a buffer of length `len`.
pub open spec fn in_window(len: int, back: int, front: int, i: int) -> bool {
    back <= i && i + front < len
}

/// Position `i` of `buf` contributes one count to cell `(b, n, j)`: its
/// window fits, `j` is a nonzero-offset slot, the base character at `i` is
/// the alphabet's character `b`, and the neighbor at slot `j` is the
/// alphabet's character `n`.
pub open spec fn slot_hit(
    buf: Seq<char>,
    alpha: Seq<char>,
    back: int,
    front: int,
    b: int,
    n: int,
    j: int,
    i: int,
) -> bool {
    &&& in_window(buf.len() as int, back, front, i)
    &&& 0 <= j < back + front + 1
    &&& j != back
    &&& 0 <= b < alpha.len()
    &&& 0 <= n < alpha.len()
    &&& alpha[b] == buf[i]
    &&& alpha[n] == buf[i - back + j]
}

/// How many positions of `buf` before `end` contribute to cell `(b, n, j)`.
pub open spec fn cell_count_upto(
    buf: Seq<char>,
    alpha: Seq<char>,
    back: int,
    front: int,
    b: int,
    n: int,
    j: int,
    end: int,
) -> nat
    decreases end,
{
    if end <= 0 {
        0
    } else {
        cell_count_upto(buf, alpha, back, front, b, n, j, end - 1) + (if slot_hit(
            buf,
            alpha,
            back,
            front,
            b,
            n,
            j,
            end - 1,
        ) {
            1nat
        } else {
            0nat
        })
    }
}

/// The count that a scan of the whole buffer gives cell `(b, n, j)`.
pub open spec fn cell_count(
    buf: Seq<char>,
    alpha: Seq<char>,
    back: int,
    front: int,
    b: int,
    n: int,
    j: int,
) -> nat {
    cell_count_upto(buf, alpha, back, front, b, n, j, buf.len() as int)
}

/// Each position contributes at most one count, so the count up to `end` is
/// at most `end`.
pub proof fn lemma_cell_count_le(
    buf: Seq<char>,
    alpha: Seq<char>,
    back: int,
    front: int,
    b: int,
    n: int,
    j: int,
    end: int,
)
    ensures
        cell_count_upto(buf, alpha, back, front, b, n, j, end) <= (if end >= 0 {
            end
        } else {
            0
        }),
    decreases end,
{
    if end > 0 {
        lemma_cell_count_le(buf, alpha, back, front, b, n, j, end - 1);
    }
}

/// Positions that contribute nothing leave the count unchanged.
pub proof fn lemma_cell_count_constant(
    buf: Seq<char>,
    alpha: Seq<char>,
    back: int,
    front: int,
    b: int,
    n: int,
    j: int,
    lo: int,
    hi: int,
)
    requires
        0 <= lo <= hi,
        forall|p: int| lo <= p < hi ==> !slot_hit(buf, alpha, back, front, b, n, j, p),
    ensures
        cell_count_upto(buf, alpha, back, front, b, n, j, hi) == cell_count_upto(
            buf,
            alpha,
            back,
            front,
            b,
            n,
            j,
            lo,
        ),
    decreases hi - lo,
{
    if hi > lo {
        lemma_cell_count_constant(buf, alpha, back, front, b, n, j, lo, hi - 1);
    }
}

/// A nonzero count comes from some contributing position.
pub proof fn lemma_cell_count_witness(
    buf: Seq<char>,
    alpha: Seq<char>,
    back: int,
    front: int,
    b: int,
    n: int,
    j: int,
    end: int,
)
    requires
        cell_count_upto(buf, alpha, back, front, b, n, j, end) > 0,
    ensures
        exists|i: int| 0 <= i < end && slot_hit(buf, alpha, back, front, b, n, j, i),
    decreases end,
{
    if end > 0 {
        if slot_hit(buf, alpha, back, front, b, n, j, end - 1) {
            assert(slot_hit(buf, alpha, back, front, b, n, j, end - 1));
        } else {
            lemma_cell_count_witness(buf, alpha, back, front, b, n, j, end - 1);
        }
    }
}

/// Membership invariant: a cell with a nonzero count addresses in-range
/// indices, and both the base character and the neighbor character it
/// stands for are members of the accepted alphabet.
pub proof fn lemma_nonzero_cell_members(
    buf: Seq<char>,
    alpha: Seq<char>,
    back: int,
    front: int,
    b: int,
    n: int,
    j: int,
)
    requires
        cell_count(buf, alpha, back, front, b, n, j) > 0,
    ensures
        0 <= b < alpha.len(),
        0 <= n < alpha.len(),
        alpha.contains(alpha[b]),
        alpha.contains(alpha[n]),
{
    lemma_cell_count_witness(buf, alpha, back, front, b, n, j, buf.len() as int);
    let i = choose|i: int|
        0 <= i < buf.len() && slot_hit(buf, alpha, back, front, b, n, j, i);
    assert(slot_hit(buf, alpha, back, front, b, n, j, i));
}

/// A buffer shorter than the window width yields an all-zero histogram: no
/// position passes the full-window test, whatever the buffer holds.
pub proof fn lemma_short_buffer_counts_zero(
    buf: Seq<char>,
    alpha: Seq<char>,
    back: int,
    front: int,
    b: int,
    n: int,
    j: int,
)
    requires
        0 <= back,
        0 <= front,
        buf.len() <= back + front,
    ensures
        cell_count(buf, alpha, back, front, b, n, j) == 0,
{
    lemma_cell_count_constant(buf, alpha, back, front, b, n, j, 0, buf.len() as int);
}

/// Scans one chunk and returns its partial co-occurrence histogram: cell
/// `(b, n, j)` holds exactly the number of in-window positions whose base
/// character is `alphabet@[b]` and whose neighbor at offset slot `j` is
/// `alphabet@[n]`.
#[verifier::loop_isolation(false)]
pub fn line_process(
    buffer: &Vec<char>,
    alphabet: &Alphabet,
    offset_back: usize,
    offset_front: usize,
) -> (h: Histogram)
    requires
        alphabet.wf(),
        offset_back + offset_front < usize::MAX,
        crate::histogram::shape_fits(
            alphabet@.len() as int,
            offset_back + offset_front + 1,
        ),
    ensures
        h.wf(),
        h.k == alphabet@.len(),
        h.w == offset_back + offset_front + 1,
        forall|b: int, n: int, j: int|
            cell_in_range(h.k as int, h.w as int, b, n, j) ==> h.cell(b, n, j) == cell_count(
                buffer@,
                alphabet@,
                offset_back as int,
                offset_front as int,
                b,
                n,
                j,
            ),
{
    let ghost buf = buffer@;
    let ghost alpha = alphabet@;
    let ghost back = offset_back as int;
    let ghost front = offset_front as int;
    let k = alphabet.len();
    let w = offset_back + offset_front + 1;
    let mut h = Histogram::new(k, w);
    proof {
        assert forall|b: int, n: int, j: int|
            cell_in_range(k as int, w as int, b, n, j) implies h.cell(b, n, j) == cell_count_upto(
            buf,
            alpha,
            back,
            front,
            b,
            n,
            j,
            0,
        ) by {
            lemma_flat_idx_bounds(k as int, w as int, b, n, j);
        }
    }
    if buffer.len() > offset_back + offset_front {
        proof {
            assert forall|b: int, n: int, j: int|
                cell_in_range(k as int, w as int, b, n, j) implies h.cell(b, n, j)
                == cell_count_upto(buf, alpha, back, front, b, n, j, back) by {
                lemma_cell_count_constant(buf, alpha, back, front, b, n, j, 0, back);
            }
        }
        let limit = buffer.len() - offset_front;
        let mut i = offset_back;
        while i < limit
            invariant
                offset_back <= i <= limit,
                h.wf(),
                h.k == k,
                h.w == w,
                forall|b: int, n: int, j: int|
                    cell_in_range(k as int, w as int, b, n, j) ==> h.cell(b, n, j)
                        == cell_count_upto(buf, alpha, back, front, b, n, j, i as int),
            decreases limit - i,
        {
            match alphabet.index_of(buffer[i]) {
                Some(bidx) => {
                    let mut j: usize = 0;
                    while j < w
                        invariant
                            j <= w,
                            h.wf(),
                            h.k == k,
                            h.w == w,
                            forall|b: int, n: int, jj: int|
                                cell_in_range(k as int, w as int, b, n, jj) ==> h.cell(b, n, jj)
                                    == cell_count_upto(buf, alpha, back, front, b, n, jj, i as int)
                                    + (if jj < j && slot_hit(
                                    buf,
                                    alpha,
                                    back,
                                    front,
                                    b,
                                    n,
                                    jj,
                                    i as int,
                                ) {
                                    1int
                                } else {
                                    0int
                                }),
                        decreases w - j,
                    {
                        if j != offset_back {
                            let pos = i - offset_back + j;
                            match alphabet.index_of(buffer[pos]) {
                                Some(nidx) => {
                                    proof {
                                        lemma_cell_count_le(
                                            buf,
                                            alpha,
                                            back,
                                            front,
                                            bidx as int,
                                            nidx as int,
                                            j as int,
                                            i as int,
                                        );
                                        lemma_flat_idx_bounds(
                                            k as int,
                                            w as int,
                                            bidx as int,
                                            nidx as int,
                                            j as int,
                                        );
                                    }
                                    let ghost h0 = h;
                                    let ghost fi = flat_idx(
                                        k as int,
                                        w as int,
                                        bidx as int,
                                        nidx as int,
                                        j as int,
                                    );
                                    let ghost v1 = (h0.cell(bidx as int, nidx as int, j as int)
                                        + 1) as u64;
                                    h.inc(bidx, nidx, j);
                                    proof {
                                        assert(h@ == h0@.update(fi, v1));
                                        assert(h@[fi] == v1);
                                        assert(forall|p: int|
                                            0 <= p < h0@.len() && p != fi ==> h@[p] == h0@[p]);
                                        assert(slot_hit(
                                            buf,
                                            alpha,
                                            back,
                                            front,
                                            bidx as int,
                                            nidx as int,
                                            j as int,
                                            i as int,
                                        ));
                                        assert forall|b: int, n: int, jj: int|
                                            cell_in_range(k as int, w as int, b, n, jj) implies h.cell(
                                            b,
                                            n,
                                            jj,
                                        ) == cell_count_upto(buf, alpha, back, front, b, n, jj, i as int)
                                            + (if jj < j + 1 && slot_hit(
                                            buf,
                                            alpha,
                                            back,
                                            front,
                                            b,
                                            n,
                                            jj,
                                            i as int,
                                        ) {
                                            1int
                                        } else {
                                            0int
                                        }) by {
                                            lemma_flat_idx_bounds(k as int, w as int, b, n, jj);
                                            assert(h0.cell(b, n, jj) == cell_count_upto(
                                                buf,
                                                alpha,
                                                back,
                                                front,
                                                b,
                                                n,
                                                jj,
                                                i as int,
                                            ) + (if jj < j && slot_hit(
                                                buf,
                                                alpha,
                                                back,
                                                front,
                                                b,
                                                n,
                                                jj,
                                                i as int,
                                            ) {
                                                1int
                                            } else {
                                                0int
                                            }));
                                            if b == bidx && n == nidx && jj == j {
                                                assert(h.cell(b, n, jj) == h0.cell(b, n, jj) + 1);
                                            } else {
                                                if flat_idx(k as int, w as int, b, n, jj) == flat_idx(
                                                    k as int,
                                                    w as int,
                                                    bidx as int,
                                                    nidx as int,
                                                    j as int,
                                                ) {
                                                    lemma_flat_idx_injective(
                                                        k as int,
                                                        w as int,
                                                        b,
                                                        n,
                                                        jj,
                                                        bidx as int,
                                                        nidx as int,
                                                        j as int,
                                                    );
                                                }
                                                if jj == j && slot_hit(
                                                    buf,
                                                    alpha,
                                                    back,
                                                    front,
                                                    b,
                                                    n,
                                                    jj,
                                                    i as int,
                                                ) {
                                                    assert(b == bidx) by {
                                                        if b < bidx {
                                                            assert(alpha[b] != alpha[bidx as int]);
                                                        } else if bidx < b {
                                                            assert(alpha[bidx as int] != alpha[b]);
                                                        }
                                                    }
                                                    assert(n == nidx) by {
                                                        if n < nidx {
                                                            assert(alpha[n] != alpha[nidx as int]);
                                                        } else if nidx < n {
                                                            assert(alpha[nidx as int] != alpha[n]);
                                                        }
                                                    }
                                                }
                                            }
                                        }
                                    }
                                },
                                None => {
                                    proof {
                                        assert forall|b: int, n: int, jj: int|
                                            cell_in_range(k as int, w as int, b, n, jj) implies h.cell(
                                            b,
                                            n,
                                            jj,
                                        ) == cell_count_upto(buf, alpha, back, front, b, n, jj, i as int)
                                            + (if jj < j + 1 && slot_hit(
                                            buf,
                                            alpha,
                                            back,
                                            front,
                                            b,
                                            n,
                                            jj,
                                            i as int,
                                        ) {
                                            1int
                                        } else {
                                            0int
                                        }) by {
                                            if jj == j && slot_hit(
                                                buf,
                                                alpha,
                                                back,
                                                front,
                                                b,
                                                n,
                                                jj,
                                                i as int,
                                            ) {
                                                assert(alpha.contains(buf[pos as int]));
                                            }
                                        }
                                    }
                                },
                            }
                        } else {
                            proof {
                                assert forall|b: int, n: int, jj: int|
                                    cell_in_range(k as int, w as int, b, n, jj) implies h.cell(
                                    b,
                                    n,
                                    jj,
                                ) == cell_count_upto(buf, alpha, back, front, b, n, jj, i as int) + (
                                if jj < j + 1 && slot_hit(
                                    buf,
                                    alpha,
                                    back,
                                    front,
                                    b,
                                    n,
                                    jj,
                                    i as int,
                                ) {
                                    1int
                                } else {
                                    0int
                                }) by {}
                            }
                        }
                        j += 1;
                    }
                    proof {
                        assert forall|b: int, n: int, jj: int|
                            cell_in_range(k as int, w as int, b, n, jj) implies h.cell(b, n, jj)
                            == cell_count_upto(buf, alpha, back, front, b, n, jj, i + 1) by {}
                    }
                },
                None => {
                    proof {
                        assert forall|b: int, n: int, j: int|
                            cell_in_range(k as int, w as int, b, n, j) implies h.cell(b, n, j)
                            == cell_count_upto(buf, alpha, back, front, b, n, j, i + 1) by {
                            if slot_hit(buf, alpha, back, front, b, n, j, i as int) {
                                assert(alpha.contains(buf[i as int]));
                            }
                        }
                    }
                },
            }
            i += 1;
        }
        proof {
            assert forall|b: int, n: int, j: int|
                cell_in_range(k as int, w as int, b, n, j) implies h.cell(b, n, j) == cell_count(
                buf,
                alpha,
                back,
                front,
                b,
                n,
                j,
            ) by {
                lemma_cell_count_constant(
                    buf,
                    alpha,
                    back,
                    front,
                    b,
                    n,
                    j,
                    limit as int,
                    buf.len() as int,
                );
            }
        }
    } else {
        proof {
            assert forall|b: int, n: int, j: int|
                cell_in_range(k as int, w as int, b, n, j) implies h.cell(b, n, j) == cell_count(
                buf,
                alpha,
                back,
                front,
                b,
                n,
                j,
            ) by {
                lemma_cell_count_constant(buf, alpha, back, front, b, n, j, 0, buf.len() as int);
            }
        }
    }
    h
}

} // verus!
