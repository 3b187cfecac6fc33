use vstd::prelude::*;
use crate::pattern::keep_matching;

verus! {

/// Lexicographic comparison of two character sequences, decided from
/// position `k` onward, assuming the two agree before `k`.
pub open spec fn lex_le_from(a: Seq<char>, b: Seq<char>, k: int) -> bool
    decreases a.len() - k,
{
    if k >= a.len() {
        true
    } else if k >= b.len() {
        false
    } else if a[k] != b[k] {
        a[k] < b[k]
    } else {
        lex_le_from(a, b, k + 1)
    }
}

/// Lexicographic order on character sequences: `a` is no later than `b`.
pub open spec fn lex_le(a: Seq<char>, b: Seq<char>) -> bool {
    lex_le_from(a, b, 0)
}

/// The order is total: of any two sequences, one is no later than the other.
pub proof fn lemma_lex_total_from(a: Seq<char>, b: Seq<char>, k: int)
    ensures
        lex_le_from(a, b, k) || lex_le_from(b, a, k),
    decreases a.len() - k,
{
    if k < a.len() && k < b.len() && a[k] == b[k] {
        lemma_lex_total_from(a, b, k + 1);
    }
}

/// The order is antisymmetric: mutually ordered sequences are equal from `k`
/// onward.
pub proof fn lemma_lex_antisym_from(a: Seq<char>, b: Seq<char>, k: int)
    requires
        0 <= k <= a.len(),
        k <= b.len(),
        lex_le_from(a, b, k),
        lex_le_from(b, a, k),
    ensures
        a.len() == b.len(),
        forall|j: int| k <= j < a.len() ==> a[j] == b[j],
    decreases a.len() - k,
{
    if k < a.len() {
        lemma_lex_antisym_from(a, b, k + 1);
    }
}

/// The order is transitive from any common position.
pub proof fn lemma_lex_trans_from(a: Seq<char>, b: Seq<char>, c: Seq<char>, k: int)
    requires
        k >= 0,
        lex_le_from(a, b, k),
        lex_le_from(b, c, k),
    ensures
        lex_le_from(a, c, k),
    decreases a.len() - k,
{
    if k < a.len() && k < b.len() && k < c.len() && a[k] == b[k] && b[k] == c[k] {
        lemma_lex_trans_from(a, b, c, k + 1);
    }
}

/// Totality of the order at the sequences' start.
pub proof fn lemma_lex_total(a: Seq<char>, b: Seq<char>)
    ensures
        lex_le(a, b) || lex_le(b, a),
{
    lemma_lex_total_from(a, b, 0);
}

/// Antisymmetry of the order: mutually ordered sequences are equal.
pub proof fn lemma_lex_antisym(a: Seq<char>, b: Seq<char>)
    requires
        lex_le(a, b),
        lex_le(b, a),
    ensures
        a == b,
{
    lemma_lex_antisym_from(a, b, 0);
    assert(a =~= b);
}

/// Transitivity of the order.
pub proof fn lemma_lex_trans(a: Seq<char>, b: Seq<char>, c: Seq<char>)
    requires
        lex_le(a, b),
        lex_le(b, c),
    ensures
        lex_le(a, c),
{
    lemma_lex_trans_from(a, b, c, 0);
}

/// A sequence of lines in lexicographically non-decreasing order.
pub open spec fn sorted_lex(s: Seq<Seq<char>>) -> bool {
    forall|i: int, j: int| 0 <= i < j < s.len() ==> lex_le(s[i], s[j])
}

/// Lexicographic comparison of two strings.
pub fn str_lex_le(a: &str, b: &str) -> (r: bool)
    ensures
        r == lex_le(a@, b@),
{
    let alen = a.unicode_len();
    let blen = b.unicode_len();
    let mut k: usize = 0;
    while k < alen && k < blen
        invariant
            0 <= k <= alen,
            k <= blen,
            alen == a@.len(),
            blen == b@.len(),
            lex_le(a@, b@) == lex_le_from(a@, b@, k as int),
        decreases alen - k,
    {
        let ca = a.get_char(k);
        let cb = b.get_char(k);
        if ca != cb {
            return ca < cb;
        }
        k = k + 1;
    }
    k == alen
}

/// A sorted permutation of another sequence of lines is unique: line values
/// with equal content are indistinguishable, so the sorted arrangement of a
/// given multiset of lines is one sequence only. In particular, sorting is
/// idempotent: sorting a sequence that is already sorted gives it back.
pub proof fn lemma_sorted_unique(a: Seq<Seq<char>>, b: Seq<Seq<char>>)
    requires
        sorted_lex(a),
        sorted_lex(b),
        a.to_multiset() == b.to_multiset(),
    ensures
        a == b,
    decreases a.len(),
{
    broadcast use vstd::seq_lib::group_to_multiset_ensures;

    a.to_multiset_ensures();
    b.to_multiset_ensures();
    if a.len() == 0 {
        assert(b.to_multiset().len() == 0);
        assert(a =~= b);
    } else {
        assert(b.to_multiset().len() == a.to_multiset().len());
        assert(b.len() == a.len());
        // The two first elements are both least in the shared multiset, so
        // they are equal by antisymmetry.
        assert(a.to_multiset().count(b[0]) > 0);
        assert(a.contains(b[0]));
        let ia = choose|i: int| 0 <= i < a.len() && a[i] == b[0];
        assert(b.to_multiset().count(a[0]) > 0);
        assert(b.contains(a[0]));
        let ib = choose|i: int| 0 <= i < b.len() && b[i] == a[0];
        if ia > 0 {
            assert(lex_le(a[0], a[ia]));
        }
        if ib > 0 {
            assert(lex_le(b[0], b[ib]));
        }
        lemma_lex_total(a[0], b[0]);
        lemma_lex_antisym(a[0], b[0]);
        assert(a[0] == b[0]);
        let a1 = a.remove(0);
        let b1 = b.remove(0);
        assert(a1.to_multiset() =~= a.to_multiset().remove(a[0]));
        assert(b1.to_multiset() =~= b.to_multiset().remove(b[0]));
        assert(sorted_lex(a1)) by {
            assert(forall|i: int, j: int| 0 <= i < j < a1.len() ==> a1[i] == a[i + 1] && a1[j] == a[j + 1]);
        }
        assert(sorted_lex(b1)) by {
            assert(forall|i: int, j: int| 0 <= i < j < b1.len() ==> b1[i] == b[i + 1] && b1[j] == b[j + 1]);
        }
        lemma_sorted_unique(a1, b1);
        assert forall|i: int| 0 <= i < a.len() implies a[i] == b[i] by {
            if i > 0 {
                assert(a1[i - 1] == a[i]);
                assert(b1[i - 1] == b[i]);
            }
        }
        assert(a =~= b);
    }
}

/// Inserting an element anywhere in a sequence adds it to the multiset of
/// elements.
proof fn lemma_insert_to_multiset(s: Seq<Seq<char>>, p: int, x: Seq<char>)
    requires
        0 <= p <= s.len(),
    ensures
        s.insert(p, x).to_multiset() == s.to_multiset().insert(x),
{
    broadcast use vstd::seq_lib::group_to_multiset_ensures;

    let t = s.insert(p, x);
    assert(t.remove(p) =~= s);
    assert(t[p] == x);
    assert(t.remove(p).to_multiset() =~= t.to_multiset().remove(x));
    assert(t.contains(x));
    assert(t.to_multiset().count(x) > 0);
    assert(t.to_multiset() =~= t.to_multiset().remove(x).insert(x));
}

/// Inserts a line into a sorted vector, after any line it compares equal to,
/// keeping the vector sorted.
fn insert_sorted(out: &mut Vec<String>, x: String)
    requires
        sorted_lex(old(out).deep_view()),
    ensures
        sorted_lex(final(out).deep_view()),
        final(out).deep_view().to_multiset() == old(out).deep_view().to_multiset().insert(x@),
{
    let mut p: usize = out.len();
    while p > 0
        invariant_except_break
            0 <= p <= out@.len(),
            forall|j: int| p <= j < out@.len() ==> !lex_le(out.deep_view()[j], x@),
        ensures
            0 <= p <= out@.len(),
            forall|j: int| p <= j < out@.len() ==> !lex_le(out.deep_view()[j], x@),
            p > 0 ==> lex_le(out.deep_view()[p - 1], x@),
        decreases p,
    {
        if str_lex_le(out[p - 1].as_str(), x.as_str()) {
            break;
        }
        p = p - 1;
    }
    let ghost pre = out.deep_view();
    let ghost pos = p as int;
    out.insert(p, x);
    proof {
        assert(out.deep_view() =~= pre.insert(pos, x@));
        lemma_insert_to_multiset(pre, pos, x@);
        let now = out.deep_view();
        assert forall|i: int, j: int| 0 <= i < j < now.len() implies lex_le(now[i], now[j]) by {
            lemma_lex_total(x@, now[i]);
            lemma_lex_total(x@, now[j]);
            if j < pos {
                assert(lex_le(pre[i], pre[j]));
            } else if i > pos {
                assert(lex_le(pre[i - 1], pre[j - 1]));
            } else if i < pos && j == pos {
                // now[j] is x; everything before pos is no later than
                // out[pos - 1], which is no later than x.
                assert(lex_le(pre[pos - 1], x@));
                if i < pos - 1 {
                    lemma_lex_trans(pre[i], pre[pos - 1], x@);
                }
            } else if i < pos && j > pos {
                assert(lex_le(pre[i], pre[j - 1]));
                assert(now[j] == pre[j - 1]);
            } else if i == pos && j > pos {
                // now[i] is x, which precedes every line the scan passed.
                assert(!lex_le(pre[j - 1], x@));
            }
        }
    }
}

/// Sorts the collected lines lexicographically; the result is a sorted
/// permutation of the input. This is the sink's `SortAndPrint` ordering, with
/// ties between equal lines broken by arrival order (equal lines have equal
/// content, so the result is the unique sorted arrangement).
pub fn sort_lines(lines: &Vec<String>) -> (out: Vec<String>)
    ensures
        sorted_lex(out.deep_view()),
        out.deep_view().to_multiset() == lines.deep_view().to_multiset(),
{
    broadcast use vstd::seq_lib::group_to_multiset_ensures;

    let mut out: Vec<String> = Vec::new();
    let mut i: usize = 0;
    proof {
        assert(lines.deep_view().subrange(0, 0) =~= Seq::<Seq<char>>::empty());
    }
    while i < lines.len()
        invariant
            0 <= i <= lines@.len(),
            sorted_lex(out.deep_view()),
            out.deep_view().to_multiset() == lines.deep_view().subrange(0, i as int).to_multiset(),
        decreases lines@.len() - i,
    {
        let x = lines[i].clone();
        proof {
            broadcast use vstd::seq_lib::group_to_multiset_ensures;

            assert(lines.deep_view().subrange(0, i + 1) =~= lines.deep_view().subrange(
                0,
                i as int,
            ).push(x@));
            assert(lines.deep_view().subrange(0, i + 1).to_multiset() =~= lines.deep_view()
                .subrange(0, i as int)
                .to_multiset()
                .insert(x@));
        }
        insert_sorted(&mut out, x);
        i = i + 1;
    }
    proof {
        assert(lines.deep_view().subrange(0, lines@.len() as int) =~= lines.deep_view());
    }
    out
}

/// The sorted output of the sink is the sorted permutation of what `Print`
/// mode would emit: sorting the matching lines of the input relates the two
/// modes' outputs.
pub proof fn lemma_sorted_output_is_permutation_of_print(
    lines: Seq<Seq<char>>,
    pat: Seq<char>,
    sorted: Seq<Seq<char>>,
)
    requires
        sorted_lex(sorted),
        sorted.to_multiset() == keep_matching(lines, pat).to_multiset(),
    ensures
        forall|other: Seq<Seq<char>>|
            sorted_lex(other) && other.to_multiset() == keep_matching(lines, pat).to_multiset()
                ==> other == sorted,
{
    assert forall|other: Seq<Seq<char>>|
        sorted_lex(other) && other.to_multiset() == keep_matching(lines, pat).to_multiset()
        implies other == sorted by {
        lemma_sorted_unique(other, sorted);
    }
}

} // verus!
