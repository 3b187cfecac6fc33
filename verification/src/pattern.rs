use vstd::prelude::*;

verus! {

/// The pattern occurs in `hay` starting at position `i`.
pub open spec fn occurs_at(hay: Seq<char>, pat: Seq<char>, i: int) -> bool {
    0 <= i && i + pat.len() <= hay.len() && hay.subrange(i, i + pat.len()) == pat
}

/// Exact substring containment: the pattern occurs somewhere in `hay`.
pub open spec fn contains_pattern(hay: Seq<char>, pat: Seq<char>) -> bool {
    exists|i: int| occurs_at(hay, pat, i)
}

/// The lines of `lines` that contain `pat`, kept in their original order.
pub open spec fn keep_matching(lines: Seq<Seq<char>>, pat: Seq<char>) -> Seq<Seq<char>>
    decreases lines.len(),
{
    if lines.len() == 0 {
        Seq::empty()
    } else {
        let rest = keep_matching(lines.drop_last(), pat);
        if contains_pattern(lines.last(), pat) {
            rest.push(lines.last())
        } else {
            rest
        }
    }
}

/// Appending one line extends the kept lines by that line exactly when it
/// matches.
pub proof fn lemma_keep_matching_push(lines: Seq<Seq<char>>, line: Seq<char>, pat: Seq<char>)
    ensures
        keep_matching(lines.push(line), pat) == if contains_pattern(line, pat) {
            keep_matching(lines, pat).push(line)
        } else {
            keep_matching(lines, pat)
        },
{
    assert(lines.push(line).drop_last() =~= lines);
    assert(lines.push(line).last() == line);
}

/// Every kept line matches, and the kept lines are never more numerous than
/// the input.
pub proof fn lemma_keep_matching_sound(lines: Seq<Seq<char>>, pat: Seq<char>)
    ensures
        keep_matching(lines, pat).len() <= lines.len(),
        forall|i: int| 0 <= i < keep_matching(lines, pat).len() ==> contains_pattern(
            #[trigger] keep_matching(lines, pat)[i],
            pat,
        ),
    decreases lines.len(),
{
    if lines.len() > 0 {
        lemma_keep_matching_sound(lines.drop_last(), pat);
    }
}

/// `idx` picks `out` out of `lines`: strictly increasing positions, one per
/// emitted line, each naming the input line it came from.
pub open spec fn selects(idx: Seq<int>, lines: Seq<Seq<char>>, out: Seq<Seq<char>>) -> bool {
    &&& idx.len() == out.len()
    &&& forall|t: int| 0 <= t < idx.len() ==> 0 <= #[trigger] idx[t] < lines.len()
    &&& forall|t: int| 0 <= t < idx.len() - 1 ==> #[trigger] idx[t] < idx[t + 1]
    &&& forall|t: int| 0 <= t < idx.len() ==> out[t] == lines[#[trigger] idx[t]]
}

/// The kept lines form an order-preserving subsequence of the input: some
/// strictly increasing positions of the input produce them, and (by
/// `lemma_keep_matching_sound`) each of them contains the pattern.
pub proof fn lemma_keep_matching_subsequence(lines: Seq<Seq<char>>, pat: Seq<char>)
    ensures
        exists|idx: Seq<int>| selects(idx, lines, keep_matching(lines, pat)),
    decreases lines.len(),
{
    if lines.len() == 0 {
        let idx = Seq::<int>::empty();
        assert(selects(idx, lines, keep_matching(lines, pat)));
    } else {
        let front = lines.drop_last();
        lemma_keep_matching_subsequence(front, pat);
        let idx0 = choose|idx: Seq<int>| selects(idx, front, keep_matching(front, pat));
        if contains_pattern(lines.last(), pat) {
            let idx = idx0.push(lines.len() - 1);
            assert(selects(idx, lines, keep_matching(lines, pat))) by {
                assert(forall|t: int|
                    0 <= t < idx0.len() ==> front[#[trigger] idx0[t]] == lines[idx0[t]]);
            }
        } else {
            assert(selects(idx0, lines, keep_matching(lines, pat))) by {
                assert(forall|t: int|
                    0 <= t < idx0.len() ==> front[#[trigger] idx0[t]] == lines[idx0[t]]);
            }
        }
    }
}

/// The pattern matches `line` at position `i` exactly when the two agree
/// character by character from there on.
fn match_at(line: &str, pattern: &str, i: usize) -> (b: bool)
    requires
        i + pattern@.len() <= line@.len(),
        line@.len() <= usize::MAX,
    ensures
        b == occurs_at(line@, pattern@, i as int),
{
    let m = pattern.unicode_len();
    let mut k: usize = 0;
    while k < m
        invariant
            0 <= k <= m,
            m == pattern@.len(),
            i + m <= line@.len(),
            line@.len() <= usize::MAX,
            forall|j: int| 0 <= j < k ==> line@[i + j] == pattern@[j],
        decreases m - k,
    {
        if line.get_char(i + k) != pattern.get_char(k) {
            proof {
                assert(line@.subrange(i as int, i + m) != pattern@) by {
                    assert(line@.subrange(i as int, i + m)[k as int] == line@[i + k]);
                }
            }
            return false;
        }
        k = k + 1;
    }
    proof {
        assert(line@.subrange(i as int, i + m) =~= pattern@);
    }
    true
}

/// Whether `line` contains `pattern` as an exact, case-sensitive substring.
pub fn line_matches(line: &str, pattern: &str) -> (b: bool)
    ensures
        b == contains_pattern(line@, pattern@),
{
    let n = line.unicode_len();
    let m = pattern.unicode_len();
    if m > n {
        proof {
            assert(forall|i: int| !occurs_at(line@, pattern@, i));
        }
        return false;
    }
    if m == 0 {
        proof {
            assert(line@.subrange(0, 0) =~= pattern@);
            assert(occurs_at(line@, pattern@, 0));
        }
        return true;
    }
    let mut i: usize = 0;
    while i <= n - m
        invariant
            0 <= i <= n - m + 1,
            1 <= m <= n,
            n == line@.len(),
            m == pattern@.len(),
            forall|j: int| 0 <= j < i ==> !occurs_at(line@, pattern@, j),
        decreases n - i,
    {
        if match_at(line, pattern, i) {
            return true;
        }
        i = i + 1;
    }
    proof {
        assert(forall|j: int| occurs_at(line@, pattern@, j) ==> 0 <= j <= n - m);
    }
    false
}

/// The lines that contain the pattern, in their original order.
///
/// This is the whole job of the pipeline's filter stage: a matching line is
/// forwarded, a non-matching line is silently dropped, and the relative order
/// of the input is preserved.
pub fn filter_lines(lines: &Vec<String>, pattern: &str) -> (out: Vec<String>)
    ensures
        out.deep_view() == keep_matching(lines.deep_view(), pattern@),
{
    let mut out: Vec<String> = Vec::new();
    let mut i: usize = 0;
    while i < lines.len()
        invariant
            0 <= i <= lines@.len(),
            out.deep_view() == keep_matching(lines.deep_view().subrange(0, i as int), pattern@),
        decreases lines@.len() - i,
    {
        proof {
            assert(lines.deep_view().subrange(0, i + 1) =~= lines.deep_view().subrange(
                0,
                i as int,
            ).push(lines.deep_view()[i as int]));
            lemma_keep_matching_push(
                lines.deep_view().subrange(0, i as int),
                lines.deep_view()[i as int],
                pattern@,
            );
        }
        if line_matches(lines[i].as_str(), pattern) {
            let line = lines[i].clone();
            let ghost pre = out.deep_view();
            out.push(line);
            proof {
                assert(out.deep_view() =~= pre.push(line@));
            }
        }
        i = i + 1;
    }
    proof {
        assert(lines.deep_view().subrange(0, lines@.len() as int) =~= lines.deep_view());
    }
    out
}

} // verus!
