//! Levenshtein edit distance: the minimum number of single-character
//! insertions, deletions and substitutions (unit cost each) that turn one
//! text into another.
//!
//! The distance is specified by the classical recurrence over prefix
//! lengths, and computed by the standard dynamic-programming routine with
//! a rolling two-row table over the shorter text, so a single pair costs
//! O(len_a * len_b) time and O(min(len_a, len_b)) memory, the symmetry of
//! the distance proved. Reconciliation runs this over every pair of an
//! existing and an incoming card, which is the dominant cost of the whole
//! system; that quadratic blow-up is accepted here, not optimized away.

use vstd::prelude::*;

verus! {

use vstd::string::StrSliceExecFns;

/// The smaller of three naturals.
pub open spec fn min3(x: nat, y: nat, z: nat) -> nat {
    if x <= y && x <= z {
        x
    } else if y <= z {
        y
    } else {
        z
    }
}

/// Edit distance between the length-`i` prefix of `a` and the length-`j`
/// prefix of `b`: the last characters either agree (carry the diagonal) or
/// one edit operation (deletion, insertion, substitution) is spent.
pub open spec fn edit_distance_prefix(a: Seq<char>, b: Seq<char>, i: nat, j: nat) -> nat
    recommends
        i <= a.len(),
        j <= b.len(),
    decreases i + j,
{
    if i == 0 {
        j
    } else if j == 0 {
        i
    } else if a[i - 1] == b[j - 1] {
        edit_distance_prefix(a, b, (i - 1) as nat, (j - 1) as nat)
    } else {
        let deletion = edit_distance_prefix(a, b, (i - 1) as nat, j);
        let insertion = edit_distance_prefix(a, b, i, (j - 1) as nat);
        let substitution = edit_distance_prefix(a, b, (i - 1) as nat, (j - 1) as nat);
        1 + min3(deletion, insertion, substitution)
    }
}

/// Levenshtein distance between two character sequences.
pub open spec fn edit_distance(a: Seq<char>, b: Seq<char>) -> nat {
    edit_distance_prefix(a, b, a.len(), b.len())
}

/// The distance between prefixes never exceeds the longer prefix length
/// (substitute along the shorter one, then insert or delete the rest).
pub proof fn lemma_edit_distance_prefix_le_max(a: Seq<char>, b: Seq<char>, i: nat, j: nat)
    ensures
        edit_distance_prefix(a, b, i, j) <= if i >= j {
            i
        } else {
            j
        },
    decreases i + j,
{
    if i == 0 || j == 0 {
    } else if a[i - 1] == b[j - 1] {
        lemma_edit_distance_prefix_le_max(a, b, (i - 1) as nat, (j - 1) as nat);
    } else {
        lemma_edit_distance_prefix_le_max(a, b, (i - 1) as nat, j);
        lemma_edit_distance_prefix_le_max(a, b, i, (j - 1) as nat);
        lemma_edit_distance_prefix_le_max(a, b, (i - 1) as nat, (j - 1) as nat);
    }
}

/// The distance is symmetric: every edit has an inverse of the same cost,
/// so the recurrence mirrors when the two texts swap places.
pub proof fn lemma_edit_distance_prefix_symmetric(a: Seq<char>, b: Seq<char>, i: nat, j: nat)
    ensures
        edit_distance_prefix(a, b, i, j) == edit_distance_prefix(b, a, j, i),
    decreases i + j,
{
    if i == 0 || j == 0 {
    } else if a[i - 1] == b[j - 1] {
        lemma_edit_distance_prefix_symmetric(a, b, (i - 1) as nat, (j - 1) as nat);
    } else {
        lemma_edit_distance_prefix_symmetric(a, b, (i - 1) as nat, j);
        lemma_edit_distance_prefix_symmetric(a, b, i, (j - 1) as nat);
        lemma_edit_distance_prefix_symmetric(a, b, (i - 1) as nat, (j - 1) as nat);
    }
}

/// Law: the distance from one text to another equals the distance back.
pub proof fn lemma_edit_distance_symmetric(a: Seq<char>, b: Seq<char>)
    ensures
        edit_distance(a, b) == edit_distance(b, a),
{
    lemma_edit_distance_prefix_symmetric(a, b, a.len(), b.len());
}

/// Law: a text is at distance zero from itself.
pub proof fn lemma_edit_distance_self(a: Seq<char>, i: nat)
    requires
        i <= a.len(),
    ensures
        edit_distance_prefix(a, a, i, i) == 0,
    decreases i,
{
    if i > 0 {
        lemma_edit_distance_self(a, (i - 1) as nat);
    }
}

/// Law: two equal texts are at distance zero.
pub proof fn lemma_edit_distance_identical(a: Seq<char>, b: Seq<char>)
    requires
        a == b,
    ensures
        edit_distance(a, b) == 0,
{
    lemma_edit_distance_self(a, a.len());
}

/// The characters of a string, in order, as a vector.
pub fn chars_vec(s: &str) -> (r: Vec<char>)
    ensures
        r@ == s@,
{
    let len = s.unicode_len();
    let mut r: Vec<char> = Vec::new();
    let mut i: usize = 0;
    while i < len
        invariant
            len == s@.len(),
            i <= len,
            r@ == s@.take(i as int),
        decreases len - i,
    {
        let c = s.get_char(i);
        r.push(c);
        i += 1;
        proof {
            assert(r@ =~= s@.take(i as int));
        }
    }
    proof {
        assert(s@.take(len as int) =~= s@);
    }
    r
}

/// The smaller of three distances.
fn min3_usize(x: usize, y: usize, z: usize) -> (r: usize)
    ensures
        r == min3(x as nat, y as nat, z as nat),
{
    if x <= y && x <= z {
        x
    } else if y <= z {
        y
    } else {
        z
    }
}

/// Dynamic-programming edit distance over character vectors, keeping only
/// the previous row and the row under construction; each row spans `b`.
pub fn levenshtein_chars(a: &Vec<char>, b: &Vec<char>) -> (d: usize)
    ensures
        d == edit_distance(a@, b@),
{
    let n = b.len();
    let mut prev: Vec<usize> = Vec::new();
    prev.push(0);
    let mut j: usize = 0;
    while j < n
        invariant
            n == b@.len(),
            j <= n,
            prev@.len() == j + 1,
            forall|k: int|
                0 <= k <= j ==> prev@[k] == edit_distance_prefix(a@, b@, 0, k as nat),
        decreases n - j,
    {
        j += 1;
        proof {
            assert(edit_distance_prefix(a@, b@, 0, j as nat) == j);
        }
        prev.push(j);
    }
    let mut i: usize = 0;
    while i < a.len()
        invariant
            n == b@.len(),
            i <= a@.len(),
            prev@.len() == n + 1,
            forall|k: int|
                0 <= k <= n ==> prev@[k] == edit_distance_prefix(a@, b@, i as nat, k as nat),
        decreases a@.len() - i,
    {
        i += 1;
        let mut cur: Vec<usize> = Vec::new();
        proof {
            assert(edit_distance_prefix(a@, b@, i as nat, 0) == i);
        }
        cur.push(i);
        let mut j: usize = 0;
        while j < n
            invariant
                n == b@.len(),
                1 <= i <= a@.len(),
                j <= n,
                prev@.len() == n + 1,
                cur@.len() == j + 1,
                forall|k: int|
                    0 <= k <= n ==> prev@[k] == edit_distance_prefix(
                        a@,
                        b@,
                        (i - 1) as nat,
                        k as nat,
                    ),
                forall|k: int|
                    0 <= k <= j ==> cur@[k] == edit_distance_prefix(a@, b@, i as nat, k as nat),
            decreases n - j,
        {
            j += 1;
            let cost_delete = prev[j];
            let cost_insert = cur[j - 1];
            let cost_substitute = prev[j - 1];
            let entry: usize;
            if a[i - 1] == b[j - 1] {
                entry = cost_substitute;
            } else {
                let m = min3_usize(cost_delete, cost_insert, cost_substitute);
                proof {
                    lemma_edit_distance_prefix_le_max(a@, b@, (i - 1) as nat, (j - 1) as nat);
                }
                entry = 1 + m;
            }
            cur.push(entry);
        }
        prev = cur;
    }
    prev[n]
}

/// Levenshtein distance between two strings, counted in characters. The
/// rows of the table span the second argument of the computation, so the
/// shorter string is put there and the memory stays O(min(len_a, len_b)).
pub fn levenshtein(a: &str, b: &str) -> (d: usize)
    ensures
        d == edit_distance(a@, b@),
{
    let av = chars_vec(a);
    let bv = chars_vec(b);
    if av.len() < bv.len() {
        proof {
            lemma_edit_distance_symmetric(a@, b@);
        }
        levenshtein_chars(&bv, &av)
    } else {
        levenshtein_chars(&av, &bv)
    }
}

} // verus!
