//! The accepted alphabet: an ordered, deduplicated sequence of characters.
//!
//! The alphabet decides which characters participate in counting or
//! extraction, and its positions are the dense indices used as histogram
//! coordinates. It is built once from configuration and read-only afterward.

use vstd::prelude::*;

verus! {

/// The input sequence with every repeated character removed, keeping the
/// first occurrence of each character and the order of first occurrences.
pub open spec fn dedup_first(s: Seq<char>) -> Seq<char>
    decreases s.len(),
{
    if s.len() == 0 {
        Seq::empty()
    } else {
        let prefix = dedup_first(s.drop_last());
        if prefix.contains(s.last()) {
            prefix
        } else {
            prefix.push(s.last())
        }
    }
}

/// No character occurs twice.
pub open spec fn no_duplicates(s: Seq<char>) -> bool {
    forall|i: int, j: int| 0 <= i < j < s.len() ==> s[i] != s[j]
}

/// Deduplication keeps exactly the characters of the input.
pub proof fn lemma_dedup_first_contains(s: Seq<char>, c: char)
    ensures
        dedup_first(s).contains(c) == s.contains(c),
    decreases s.len(),
{
    if s.len() > 0 {
        lemma_dedup_first_contains(s.drop_last(), c);
        let prefix = dedup_first(s.drop_last());
        let d = dedup_first(s);
        if d.contains(c) {
            let i = choose|i: int| 0 <= i < d.len() && d[i] == c;
            if i < prefix.len() {
                assert(prefix[i] == c);
                assert(prefix.contains(c));
                let p = choose|p: int| 0 <= p < s.len() - 1 && s.drop_last()[p] == c;
                assert(s[p] == c);
            } else {
                assert(c == s.last());
                assert(s[s.len() - 1] == c);
            }
            assert(s.contains(c));
        }
        if s.contains(c) {
            let i = choose|i: int| 0 <= i < s.len() && s[i] == c;
            if i < s.len() - 1 {
                assert(s.drop_last()[i] == c);
                assert(s.drop_last().contains(c));
                let p = choose|p: int| 0 <= p < prefix.len() && prefix[p] == c;
                assert(d[p] == c);
            } else {
                if prefix.contains(s.last()) {
                    let p = choose|p: int| 0 <= p < prefix.len() && prefix[p] == s.last();
                    assert(d[p] == c);
                } else {
                    assert(d[prefix.len() as int] == c);
                }
            }
            assert(d.contains(c));
        }
    }
}

/// Deduplication leaves no repeated characters.
pub proof fn lemma_dedup_first_no_duplicates(s: Seq<char>)
    ensures
        no_duplicates(dedup_first(s)),
    decreases s.len(),
{
    if s.len() > 0 {
        lemma_dedup_first_no_duplicates(s.drop_last());
        let prefix = dedup_first(s.drop_last());
        if !prefix.contains(s.last()) {
            assert forall|i: int, j: int|
                0 <= i < j < dedup_first(s).len() implies dedup_first(s)[i] != dedup_first(
                s,
            )[j] by {
                if j == dedup_first(s).len() - 1 {
                    assert(prefix[i] == dedup_first(s)[i]);
                    assert(prefix.contains(prefix[i]));
                }
            }
        }
    }
}

/// The accepted alphabet. Its view is the ordered sequence of accepted
/// characters; a character's position in that sequence is its dense index.
pub struct Alphabet {
    pub chars: Vec<char>,
}

impl View for Alphabet {
    type V = Seq<char>;

    closed spec fn view(&self) -> Seq<char> {
        self.chars@
    }
}

impl Alphabet {
    /// The alphabet holds each character at most once, so that positions
    /// are a bijective index.
    pub open spec fn wf(&self) -> bool {
        no_duplicates(self@)
    }

    /// Builds the alphabet from configured characters, dropping every
    /// repeated character and keeping the order of first occurrences.
    pub fn new(accepted: Vec<char>) -> (a: Alphabet)
        ensures
            a.wf(),
            a@ == dedup_first(accepted@),
    {
        let mut chars: Vec<char> = Vec::new();
        let mut i: usize = 0;
        while i < accepted.len()
            invariant
                i <= accepted@.len(),
                chars@ == dedup_first(accepted@.take(i as int)),
            decreases accepted@.len() - i,
        {
            proof {
                assert(accepted@.take(i + 1).drop_last() =~= accepted@.take(i as int));
                assert(accepted@.take(i + 1).last() == accepted@[i as int]);
            }
            if !contains_char(&chars, accepted[i]) {
                chars.push(accepted[i]);
            }
            i += 1;
        }
        proof {
            assert(accepted@.take(accepted@.len() as int) =~= accepted@);
            lemma_dedup_first_no_duplicates(accepted@);
        }
        Alphabet { chars }
    }

    /// How many characters the alphabet accepts.
    pub fn len(&self) -> (r: usize)
        ensures
            r == self@.len(),
    {
        self.chars.len()
    }

    /// The character at a dense index.
    pub fn char_at(&self, i: usize) -> (c: char)
        requires
            i < self@.len(),
        ensures
            c == self@[i as int],
    {
        self.chars[i]
    }

    /// Whether the alphabet accepts `c`.
    pub fn accepts(&self, c: char) -> (r: bool)
        ensures
            r == self@.contains(c),
    {
        contains_char(&self.chars, c)
    }

    /// The dense index of `c`: `Some(i)` with `self@[i] == c` when the
    /// alphabet accepts `c`, `None` otherwise.
    pub fn index_of(&self, c: char) -> (r: Option<usize>)
        ensures
            match r {
                Some(i) => i < self@.len() && self@[i as int] == c,
                None => !self@.contains(c),
            },
    {
        let mut i: usize = 0;
        while i < self.chars.len()
            invariant
                i <= self@.len(),
                forall|p: int| 0 <= p < i ==> self@[p] != c,
            decreases self@.len() - i,
        {
            if self.chars[i] == c {
                return Some(i);
            }
            i += 1;
        }
        None
    }
}

/// Whether `v` holds the character `c`.
pub fn contains_char(v: &Vec<char>, c: char) -> (r: bool)
    ensures
        r == v@.contains(c),
{
    let mut i: usize = 0;
    while i < v.len()
        invariant
            i <= v@.len(),
            forall|p: int| 0 <= p < i ==> v@[p] != c,
        decreases v@.len() - i,
    {
        if v[i] == c {
            return true;
        }
        i += 1;
    }
    false
}

} // verus!
