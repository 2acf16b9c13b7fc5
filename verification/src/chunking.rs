//! Partitioning of the input byte range into fixed-size chunks.
//!
//! The scan splits an input of known byte length into disjoint chunks of a
//! fixed size; each chunk is read and scanned independently. These functions
//! compute the chunk count and the byte range of each chunk.

use vstd::prelude::*;

verus! {

/// Number of chunks needed to cover `n` bytes with chunks of size `c`:
/// the ceiling of `n / c`.
pub open spec fn spec_num_chunks(n: nat, c: nat) -> nat
    recommends
        c > 0,
{
    ((n + c - 1) / (c as int)) as nat
}

/// The byte range of chunk `i`, as a half-open interval.
pub open spec fn spec_chunk_start(i: nat, c: nat) -> nat {
    i * c
}

/// Exclusive end of chunk `i`: the next chunk boundary, capped at `n`.
pub open spec fn spec_chunk_end(i: nat, n: nat, c: nat) -> nat {
    if (i + 1) * c <= n {
        (i + 1) * c
    } else {
        n
    }
}

/// How many chunks of size `c` cover an `n`-byte input.
pub fn num_chunks(n: u64, c: u64) -> (r: u64)
    requires
        c > 0,
    ensures
        r == spec_num_chunks(n as nat, c as nat),
{
    let q = n / c;
    let rem = n % c;
    proof {
        assert((n + c - 1) / (c as int) == q + if rem == 0 { 0int } else { 1int })
            by (nonlinear_arith)
            requires
                c > 0,
                q == n as int / c as int,
                rem == n as int % c as int,
        ;
        assert(rem != 0 ==> q < n) by (nonlinear_arith)
            requires
                c > 0,
                q == n as int / c as int,
                rem == n as int % c as int,
        ;
    }
    if rem == 0 {
        q
    } else {
        q + 1
    }
}

/// The byte range `[start, end)` of chunk `i` out of `num_chunks(n, c)`.
/// Every chunk is nonempty and ends at the next chunk boundary or at the
/// end of the input, whichever comes first.
pub fn chunk_bounds(i: u64, n: u64, c: u64) -> (r: (u64, u64))
    requires
        c > 0,
        i < spec_num_chunks(n as nat, c as nat),
    ensures
        r.0 == spec_chunk_start(i as nat, c as nat),
        r.1 == spec_chunk_end(i as nat, n as nat, c as nat),
        r.0 < r.1 <= n,
{
    proof {
        assert(i * c < n && i * c + c <= n + c - 1 + 1) by (nonlinear_arith)
            requires
                c > 0,
                i < (n + c - 1) / (c as int),
        ;
    }
    let start = i * c;
    let len = if c <= n - start {
        c
    } else {
        n - start
    };
    proof {
        assert((i + 1) * c == i * c + c) by (nonlinear_arith);
    }
    (start, start + len)
}

/// Turns a chunk of raw bytes into its scan buffer: each input byte is one
/// character; bytes that are not printable text are ordinary characters
/// here and simply never belong to an accepted alphabet.
pub fn bytes_to_chars(bytes: &Vec<u8>) -> (v: Vec<char>)
    ensures
        v@.len() == bytes@.len(),
        forall|i: int| 0 <= i < bytes@.len() ==> v@[i] == bytes@[i] as char,
{
    let mut v: Vec<char> = Vec::new();
    let mut i: usize = 0;
    while i < bytes.len()
        invariant
            i <= bytes@.len(),
            v@.len() == i,
            forall|p: int| 0 <= p < i ==> v@[p] == bytes@[p] as char,
        decreases bytes@.len() - i,
    {
        v.push(bytes[i] as char);
        i += 1;
    }
    v
}

/// Chunks tile the input: every byte position `p < n` lies in exactly one
/// chunk, namely chunk `p / c`, and that chunk index is in range.
pub proof fn lemma_chunk_of_position(p: nat, n: nat, c: nat)
    requires
        c > 0,
        p < n,
    ensures
        (p as int / c as int) < spec_num_chunks(n, c),
        spec_chunk_start((p as int / c as int) as nat, c) <= p,
        p < spec_chunk_end((p as int / c as int) as nat, n, c),
        forall|j: nat|
            #![trigger spec_chunk_start(j, c)]
            j < spec_num_chunks(n, c) && j != p as int / c as int ==> !(spec_chunk_start(j, c) <= p
                < spec_chunk_end(j, n, c)),
{
    let i: int = p as int / c as int;
    assert(0 <= i && i * c <= p && p < (i + 1) * c) by (nonlinear_arith)
        requires
            c > 0,
            0 <= p,
            i == p as int / c as int,
    ;
    assert(i < spec_num_chunks(n, c)) by (nonlinear_arith)
        requires
            c > 0,
            p < n,
            0 <= i,
            i * c <= p,
            p < (i + 1) * c,
    ;
    assert forall|j: nat|
        #![trigger spec_chunk_start(j, c)]
        j < spec_num_chunks(n, c) && j != i implies !(spec_chunk_start(j, c) <= p < spec_chunk_end(
        j,
        n,
        c,
    )) by {
        assert(!(j * c <= p && p < (j + 1) * c)) by (nonlinear_arith)
            requires
                c > 0,
                j != i,
                i * c <= p,
                p < (i + 1) * c,
        ;
    }
}

} // verus!
