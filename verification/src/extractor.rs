//! The window scanner, extraction mode: collects the literal context
//! windows around each occurrence of a target character, keeping a window
//! only when every character in it is accepted, and the comma-separated
//! encoding of the collected windows.

use crate::alphabet::contains_char;
use crate::scanner::in_window;
use vstd::prelude::*;

verus! {

/// The window of characters around position `i`, from `offset_back` behind
/// to `offset_front` ahead, center included.
pub open spec fn window_at(buf: Seq<char>, back: int, front: int, i: int) -> Seq<char>
    recommends
        in_window(buf.len() as int, back, front, i),
        0 <= back,
{
    buf.subrange(i - back, i + front + 1)
}

/// Every character of `win` is accepted.
pub open spec fn all_accepted(win: Seq<char>, acceptable: Seq<char>) -> bool {
    forall|p: int| 0 <= p < win.len() ==> acceptable.contains(win[p])
}

/// Position `i` yields a retained context window: its full window fits in
/// the buffer, the character at `i` is the target, and every character of
/// the window is accepted.
pub open spec fn window_kept(
    buf: Seq<char>,
    acceptable: Seq<char>,
    back: int,
    front: int,
    target: char,
    i: int,
) -> bool {
    &&& in_window(buf.len() as int, back, front, i)
    &&& buf[i] == target
    &&& all_accepted(window_at(buf, back, front, i), acceptable)
}

/// The retained context windows at positions before `end`, in position
/// order.
pub open spec fn windows_upto(
    buf: Seq<char>,
    acceptable: Seq<char>,
    back: int,
    front: int,
    target: char,
    end: int,
) -> Seq<Seq<char>>
    decreases end,
{
    if end <= 0 {
        Seq::empty()
    } else {
        let prefix = windows_upto(buf, acceptable, back, front, target, end - 1);
        if window_kept(buf, acceptable, back, front, target, end - 1) {
            prefix.push(window_at(buf, back, front, end - 1))
        } else {
            prefix
        }
    }
}

/// All retained context windows of the buffer, in position order.
pub open spec fn context_windows(
    buf: Seq<char>,
    acceptable: Seq<char>,
    back: int,
    front: int,
    target: char,
) -> Seq<Seq<char>> {
    windows_upto(buf, acceptable, back, front, target, buf.len() as int)
}

/// Positions that retain no window leave the collected sequence unchanged.
pub proof fn lemma_windows_constant(
    buf: Seq<char>,
    acceptable: Seq<char>,
    back: int,
    front: int,
    target: char,
    lo: int,
    hi: int,
)
    requires
        0 <= lo <= hi,
        forall|p: int| lo <= p < hi ==> !window_kept(buf, acceptable, back, front, target, p),
    ensures
        windows_upto(buf, acceptable, back, front, target, hi) == windows_upto(
            buf,
            acceptable,
            back,
            front,
            target,
            lo,
        ),
    decreases hi - lo,
{
    if hi > lo {
        lemma_windows_constant(buf, acceptable, back, front, target, lo, hi - 1);
    }
}

/// Whether every character of `vector` is accepted.
pub fn validate_vec(vector: &Vec<char>, acceptable: &Vec<char>) -> (r: bool)
    ensures
        r == all_accepted(vector@, acceptable@),
{
    let mut i: usize = 0;
    while i < vector.len()
        invariant
            i <= vector@.len(),
            forall|p: int| 0 <= p < i ==> acceptable@.contains(vector@[p]),
        decreases vector@.len() - i,
    {
        if !contains_char(acceptable, vector[i]) {
            return false;
        }
        i += 1;
    }
    true
}

/// Scans one chunk for the target character and returns the retained
/// context windows, in position order: one window per in-window occurrence
/// of the target whose surrounding characters are all accepted.
#[verifier::loop_isolation(false)]
pub fn chunk_process(
    buffer: &Vec<char>,
    acceptable: &Vec<char>,
    offset_back: usize,
    offset_front: usize,
    search_char: &char,
) -> (r: Vec<Vec<char>>)
    requires
        offset_back + offset_front < usize::MAX,
    ensures
        r@.map_values(|v: Vec<char>| v@) == context_windows(
            buffer@,
            acceptable@,
            offset_back as int,
            offset_front as int,
            *search_char,
        ),
{
    let ghost buf = buffer@;
    let ghost acc = acceptable@;
    let ghost back = offset_back as int;
    let ghost front = offset_front as int;
    let ghost target = *search_char;
    let mut data: Vec<Vec<char>> = Vec::new();
    proof {
        assert(data@.map_values(|v: Vec<char>| v@) =~= windows_upto(
            buf,
            acc,
            back,
            front,
            target,
            0,
        ));
    }
    if buffer.len() > offset_back + offset_front {
        proof {
            lemma_windows_constant(buf, acc, back, front, target, 0, back);
        }
        let w = offset_back + offset_front + 1;
        let limit = buffer.len() - offset_front;
        let mut i = offset_back;
        while i < limit
            invariant
                offset_back <= i <= limit,
                data@.map_values(|v: Vec<char>| v@) == windows_upto(
                    buf,
                    acc,
                    back,
                    front,
                    target,
                    i as int,
                ),
            decreases limit - i,
        {
            if buffer[i] == *search_char {
                let mut context: Vec<char> = Vec::new();
                let mut j: usize = 0;
                while j < w
                    invariant
                        j <= w,
                        offset_back <= i < limit,
                        context@.len() == j,
                        forall|p: int| 0 <= p < j ==> context@[p] == buf[i - back + p],
                    decreases w - j,
                {
                    context.push(buffer[i - offset_back + j]);
                    j += 1;
                }
                proof {
                    assert(context@ =~= window_at(buf, back, front, i as int));
                }
                if validate_vec(&context, acceptable) {
                    let ghost before = data@.map_values(|v: Vec<char>| v@);
                    data.push(context);
                    proof {
                        assert(window_kept(buf, acc, back, front, target, i as int));
                        assert(data@.map_values(|v: Vec<char>| v@) =~= before.push(context@));
                    }
                } else {
                    proof {
                        assert(!window_kept(buf, acc, back, front, target, i as int));
                    }
                }
            } else {
                proof {
                    assert(!window_kept(buf, acc, back, front, target, i as int));
                }
            }
            i += 1;
        }
        proof {
            assert forall|p: int|
                limit <= p < buf.len() implies !window_kept(buf, acc, back, front, target, p) by {}
            lemma_windows_constant(buf, acc, back, front, target, limit as int, buf.len() as int);
        }
    } else {
        proof {
            lemma_windows_constant(buf, acc, back, front, target, 0, buf.len() as int);
        }
    }
    data
}

/// One encoded row: every character of the row followed by a comma.
pub open spec fn row_csv_body(row: Seq<char>) -> Seq<char>
    decreases row.len(),
{
    if row.len() == 0 {
        Seq::empty()
    } else {
        row_csv_body(row.drop_last()) + seq![row.last(), ',']
    }
}

/// One encoded row with its line ending: the characters separated by
/// commas, a trailing comma, and a newline.
pub open spec fn row_csv(row: Seq<char>) -> Seq<char> {
    if row.len() == 0 {
        seq![',', '\n']
    } else {
        row_csv_body(row) + seq!['\n']
    }
}

/// The encoded rows, concatenated in order.
pub open spec fn rows_csv(rows: Seq<Seq<char>>) -> Seq<char>
    decreases rows.len(),
{
    if rows.len() == 0 {
        Seq::empty()
    } else {
        rows_csv(rows.drop_last()) + row_csv(rows.last())
    }
}

/// Encodes the collected context windows as comma-separated text: one row
/// per window, each character followed by a comma, each row ended by a
/// newline.
#[verifier::loop_isolation(false)]
pub fn csv_encode(data: &Vec<Vec<char>>) -> (out: Vec<char>)
    ensures
        out@ == rows_csv(data@.map_values(|v: Vec<char>| v@)),
{
    let ghost rows = data@.map_values(|v: Vec<char>| v@);
    let mut out: Vec<char> = Vec::new();
    let mut r: usize = 0;
    proof {
        assert(rows.take(0) =~= Seq::<Seq<char>>::empty());
    }
    while r < data.len()
        invariant
            r <= data@.len(),
            out@ == rows_csv(rows.take(r as int)),
        decreases data@.len() - r,
    {
        let row = &data[r];
        let ghost out_start = out@;
        let mut c: usize = 0;
        while c < row.len()
            invariant
                c <= row@.len(),
                out@ == out_start + row_csv_body(row@.take(c as int)),
            decreases row@.len() - c,
        {
            out.push(row[c]);
            out.push(',');
            proof {
                assert(row@.take(c + 1).drop_last() =~= row@.take(c as int));
                assert(out@ =~= out_start + row_csv_body(row@.take(c + 1)));
            }
            c += 1;
        }
        if row.len() == 0 {
            out.push(',');
        }
        out.push('\n');
        proof {
            assert(row@.take(row@.len() as int) =~= row@);
            assert(rows.take(r + 1).drop_last() =~= rows.take(r as int));
            assert(rows.take(r + 1).last() == row@);
            assert(out@ =~= rows_csv(rows.take(r + 1)));
        }
        r += 1;
    }
    proof {
        assert(rows.take(rows.len() as int) =~= rows);
    }
    out
}

} // verus!
