//! Positional mismatch counting and reverse complement of DNA sequences.
use vstd::prelude::*;
use vstd::std_specs::iter::IteratorSpec;

verus! {

broadcast use vstd::string::group_string_axioms;

/// Number of positions below `n` at which `a` and `b` differ.
pub open spec fn mismatches_below(a: Seq<char>, b: Seq<char>, n: nat) -> nat
    decreases n,
{
    if n == 0 {
        0
    } else {
        mismatches_below(a, b, (n - 1) as nat) + if a[n - 1] != b[n - 1] {
            1nat
        } else {
            0nat
        }
    }
}

/// Length of the common prefix range of two sequences.
pub open spec fn common_len(a: Seq<char>, b: Seq<char>) -> nat {
    if a.len() <= b.len() {
        a.len()
    } else {
        b.len()
    }
}

/// Hamming distance over the common prefix: characters beyond the shorter
/// sequence are not counted.
pub open spec fn hamming(a: Seq<char>, b: Seq<char>) -> nat {
    mismatches_below(a, b, common_len(a, b))
}

/// Watson-Crick complement of one base; other characters are kept.
pub open spec fn complement(c: char) -> char {
    if c == 'A' {
        'T'
    } else if c == 'T' {
        'A'
    } else if c == 'C' {
        'G'
    } else if c == 'G' {
        'C'
    } else {
        c
    }
}

/// The sequence read backwards with each base complemented.
pub open spec fn rev_comp(s: Seq<char>) -> Seq<char> {
    Seq::new(s.len(), |i: int| complement(s[s.len() - 1 - i]))
}

/// Whether `c` is one of the four bases A, C, G and T.
pub open spec fn is_base(c: char) -> bool {
    c == 'A' || c == 'C' || c == 'G' || c == 'T'
}

/// Whether every character is one of the four bases.
pub open spec fn is_dna(s: Seq<char>) -> bool {
    forall|i: int| 0 <= i < s.len() ==> is_base(#[trigger] s[i])
}

/// Relies on `String::push`: appends one character at the end.
#[verifier::external_body]
pub(crate) fn push_char(s: &mut String, c: char)
    ensures
        final(s)@ == old(s)@.push(c),
{
    s.push(c)
}

/// The characters of `s`, in order.
fn chars_of(s: &str) -> (r: Vec<char>)
    ensures
        r@ == s@,
{
    let mut out: Vec<char> = Vec::new();
    let mut it = s.chars();
    loop
        invariant
            it.obeys_prophetic_iter_laws(),
            out@ + it.remaining() == s@,
            it.decrease() is Some,
        ensures
            out@ == s@,
        decreases it.decrease()->0,
    {
        match it.next() {
            Some(c) => {
                out.push(c);
            },
            None => {
                assert(out@ =~= s@);
                break;
            },
        }
    }
    out
}

/// Counts the positions at which `seq1` and `seq2` differ, over their common
/// prefix only: a difference in length adds nothing.
pub fn hamming_distance(seq1: &str, seq2: &str) -> (r: usize)
    ensures
        r == hamming(seq1@, seq2@),
{
    let a = chars_of(seq1);
    let b = chars_of(seq2);
    let n: usize = if a.len() <= b.len() {
        a.len()
    } else {
        b.len()
    };
    let mut count: usize = 0;
    let mut i: usize = 0;
    while i < n
        invariant
            a@ == seq1@,
            b@ == seq2@,
            n == common_len(seq1@, seq2@),
            i <= n,
            count == mismatches_below(seq1@, seq2@, i as nat),
            count <= i,
        decreases n - i,
    {
        if a[i] != b[i] {
            count = count + 1;
        }
        i = i + 1;
    }
    count
}

/// The reverse complement of `sequence`: read backwards, with A and T
/// swapped and C and G swapped; any other character is kept as it is.
pub fn reverse_complement(sequence: &str) -> (r: String)
    ensures
        r@ == rev_comp(sequence@),
{
    let s = chars_of(sequence);
    let mut out = String::new();
    let mut i: usize = s.len();
    while i > 0
        invariant
            s@ == sequence@,
            i <= s@.len(),
            out@ == rev_comp(sequence@).take(s@.len() - i),
        decreases i,
    {
        let base = s[i - 1];
        let c = if base == 'A' {
            'T'
        } else if base == 'T' {
            'A'
        } else if base == 'C' {
            'G'
        } else if base == 'G' {
            'C'
        } else {
            base
        };
        push_char(&mut out, c);
        i = i - 1;
        assert(out@ =~= rev_comp(sequence@).take(s@.len() - i));
    }
    assert(out@ =~= rev_comp(sequence@));
    out
}

/// A sequence is at distance zero from itself.
pub proof fn lemma_hamming_self(s: Seq<char>)
    ensures
        hamming(s, s) == 0,
{
    lemma_mismatches_below_self(s, s.len());
}

proof fn lemma_mismatches_below_self(s: Seq<char>, n: nat)
    ensures
        mismatches_below(s, s, n) == 0,
    decreases n,
{
    if n > 0 {
        lemma_mismatches_below_self(s, (n - 1) as nat);
    }
}

/// The distance does not depend on the order of its arguments.
pub proof fn lemma_hamming_symmetric(a: Seq<char>, b: Seq<char>)
    ensures
        hamming(a, b) == hamming(b, a),
{
    lemma_mismatches_below_symmetric(a, b, common_len(a, b));
}

proof fn lemma_mismatches_below_symmetric(a: Seq<char>, b: Seq<char>, n: nat)
    ensures
        mismatches_below(a, b, n) == mismatches_below(b, a, n),
    decreases n,
{
    if n > 0 {
        lemma_mismatches_below_symmetric(a, b, (n - 1) as nat);
    }
}

/// Taking the reverse complement twice gives back any sequence made of the
/// four bases A, C, G and T.
pub proof fn lemma_rev_comp_involutive(s: Seq<char>)
    requires
        is_dna(s),
    ensures
        rev_comp(rev_comp(s)) == s,
{
    assert forall|i: int| 0 <= i < s.len() implies #[trigger] rev_comp(rev_comp(s))[i] == s[i] by {
        assert(s[s.len() - 1 - (s.len() - 1 - i)] == s[i]);
    }
    assert(rev_comp(rev_comp(s)) =~= s);
}

} // verus!
