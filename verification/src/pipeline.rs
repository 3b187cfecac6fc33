use vstd::prelude::*;
use crate::numfmt::{append_decimal, decimal_digits};
use crate::pattern::{filter_lines, keep_matching, lemma_keep_matching_sound};
use crate::strsort::{sort_lines, sorted_lex};

verus! {

/// The sink stage's aggregation policy, fixed for a whole run.
#[derive(Clone, Copy, Debug, PartialEq, Eq, Structural)]
pub enum OutputMode {
    /// Emit each matching line immediately, in arrival order.
    Print,
    /// Collect all matching lines, then emit them lexicographically sorted.
    SortAndPrint,
    /// Discard content and emit only the final number of matches.
    Count,
}

/// The pipeline's configuration: the inputs to scan in order, the pattern to
/// look for, and the aggregation policy. Immutable once a run starts.
pub struct Options {
    pub files: Vec<String>,
    pub pattern: String,
    pub output_mode: OutputMode,
}

impl Options {
    /// Bundles a configuration.
    pub fn new(files: Vec<String>, pattern: String, output_mode: OutputMode) -> (r: Options)
        ensures
            r.files == files,
            r.pattern == pattern,
            r.output_mode == output_mode,
    {
        Options { files, pattern, output_mode }
    }
}

/// One input as the source stage saw it: its name, and its lines if it could
/// be opened, or nothing if it could not.
pub struct FileRead {
    pub name: String,
    pub lines: Option<Vec<String>>,
}

/// The position of the first unreadable input, or the total number of inputs
/// when every one of them could be read.
pub open spec fn failure_index_from(reads: Seq<FileRead>, k: int) -> int
    decreases reads.len() - k,
{
    if k < 0 || k >= reads.len() {
        reads.len() as int
    } else if reads[k].lines is None {
        k
    } else {
        failure_index_from(reads, k + 1)
    }
}

pub open spec fn failure_index(reads: Seq<FileRead>) -> int {
    failure_index_from(reads, 0)
}

/// The lines the source stage emits: the lines of each readable input in
/// configured order, stopping at the first unreadable input.
pub open spec fn gathered_from(reads: Seq<FileRead>, k: int) -> Seq<Seq<char>>
    decreases reads.len() - k,
{
    if k < 0 || k >= reads.len() {
        Seq::empty()
    } else {
        match reads[k].lines {
            None => Seq::empty(),
            Some(v) => v.deep_view() + gathered_from(reads, k + 1),
        }
    }
}

pub open spec fn gathered_lines(reads: Seq<FileRead>) -> Seq<Seq<char>> {
    gathered_from(reads, 0)
}

/// The first unreadable input lies between `k` and the end; everything
/// before it is readable.
pub proof fn lemma_failure_index_bounds(reads: Seq<FileRead>, k: int)
    requires
        0 <= k <= reads.len(),
    ensures
        k <= failure_index_from(reads, k) <= reads.len(),
        failure_index_from(reads, k) < reads.len() ==> reads[failure_index_from(
            reads,
            k,
        )].lines is None,
        forall|j: int| k <= j < failure_index_from(reads, k) ==> reads[j].lines is Some,
    decreases reads.len() - k,
{
    if k < reads.len() && reads[k].lines is Some {
        lemma_failure_index_bounds(reads, k + 1);
    }
}

/// What the source stage hands on: the emitted lines, and the name of the
/// input it failed on, if any.
pub struct SourceOutcome {
    pub lines: Vec<String>,
    pub failed: Option<String>,
}

/// The source stage, after its reads are done: concatenates the lines of
/// each readable input in configured order. At the first unreadable input it
/// aborts — later inputs contribute nothing, even readable ones — and
/// reports that input's name.
pub fn collect_lines(reads: &Vec<FileRead>) -> (r: SourceOutcome)
    ensures
        r.lines.deep_view() == gathered_lines(reads@),
        match r.failed {
            Some(n) => failure_index(reads@) < reads@.len() && n@ == reads@[failure_index(
                reads@,
            )].name@,
            None => failure_index(reads@) == reads@.len(),
        },
{
    let mut out: Vec<String> = Vec::new();
    let mut i: usize = 0;
    while i < reads.len()
        invariant
            0 <= i <= reads@.len(),
            forall|j: int| 0 <= j < i ==> reads@[j].lines is Some,
            out.deep_view() + gathered_from(reads@, i as int) == gathered_lines(reads@),
            failure_index_from(reads@, i as int) == failure_index(reads@),
        decreases reads@.len() - i,
    {
        match &reads[i].lines {
            None => {
                proof {
                    assert(gathered_from(reads@, i as int) =~= Seq::<Seq<char>>::empty());
                    assert(out.deep_view() =~= gathered_lines(reads@));
                }
                let name = reads[i].name.clone();
                return SourceOutcome { lines: out, failed: Some(name) };
            },
            Some(v) => {
                let ghost pre = out.deep_view();
                let mut k: usize = 0;
                while k < v.len()
                    invariant
                        0 <= k <= v@.len(),
                        out.deep_view() == pre + v.deep_view().subrange(0, k as int),
                    decreases v@.len() - k,
                {
                    let ghost mid = out.deep_view();
                    let line = v[k].clone();
                    out.push(line);
                    proof {
                        assert(out.deep_view() =~= mid.push(v.deep_view()[k as int]));
                        assert(out.deep_view() =~= pre + v.deep_view().subrange(0, k + 1));
                    }
                    k = k + 1;
                }
                proof {
                    assert(v.deep_view().subrange(0, v@.len() as int) =~= v.deep_view());
                    assert(out.deep_view() + gathered_from(reads@, i + 1) =~= gathered_lines(
                        reads@,
                    ));
                }
            },
        }
        i = i + 1;
    }
    proof {
        assert(gathered_from(reads@, reads@.len() as int) =~= Seq::<Seq<char>>::empty());
        assert(out.deep_view() =~= gathered_lines(reads@));
    }
    SourceOutcome { lines: out, failed: None }
}

/// What one whole run produces: the lines emitted in order, the final count
/// in `Count` mode, and the name of the input the source aborted on, if any.
pub struct RunReport {
    pub emitted: Vec<String>,
    pub count: Option<usize>,
    pub failed: Option<String>,
}

/// Runs the three stages to completion over inputs that have already been
/// read, and aggregates under the configured policy:
///
/// - `Print` emits exactly the matching lines, in arrival order;
/// - `Count` emits nothing and counts exactly the matching lines;
/// - `SortAndPrint` emits a lexicographically sorted permutation of the
///   matching lines.
///
/// An unreadable input aborts the source stage: lines of inputs configured
/// after it are not scanned, and its name is reported.
pub fn run_pipeline(options: &Options, reads: &Vec<FileRead>) -> (r: RunReport)
    ensures
        match r.failed {
            Some(n) => failure_index(reads@) < reads@.len() && n@ == reads@[failure_index(
                reads@,
            )].name@,
            None => failure_index(reads@) == reads@.len(),
        },
        match options.output_mode {
            OutputMode::Print => r.emitted.deep_view() == keep_matching(
                gathered_lines(reads@),
                options.pattern@,
            ) && r.count is None,
            OutputMode::Count => r.emitted@.len() == 0 && r.count == Some(
                keep_matching(gathered_lines(reads@), options.pattern@).len() as usize,
            ),
            OutputMode::SortAndPrint => sorted_lex(r.emitted.deep_view())
                && r.emitted.deep_view().to_multiset() == keep_matching(
                gathered_lines(reads@),
                options.pattern@,
            ).to_multiset() && r.count is None,
        },
{
    let source = collect_lines(reads);
    let matched = filter_lines(&source.lines, options.pattern.as_str());
    proof {
        lemma_keep_matching_sound(gathered_lines(reads@), options.pattern@);
    }
    match options.output_mode {
        OutputMode::Print => {
            RunReport { emitted: matched, count: None, failed: source.failed }
        },
        OutputMode::Count => {
            let n = matched.len();
            let empty: Vec<String> = Vec::new();
            RunReport { emitted: empty, count: Some(n), failed: source.failed }
        },
        OutputMode::SortAndPrint => {
            let sorted = sort_lines(&matched);
            RunReport { emitted: sorted, count: None, failed: source.failed }
        },
    }
}

/// The diagnostic line for an input that could not be opened.
pub fn open_failure_message(name: &str) -> (m: String)
    ensures
        m@ == "Failed to read file "@ + name@ + "."@,
{
    let mut s = String::new();
    s.append("Failed to read file ");
    s.append(name);
    s.append(".");
    proof {
        assert(s@ =~= "Failed to read file "@ + name@ + "."@);
    }
    s
}

/// The final line of `Count` mode: the count, then the pattern for context.
pub fn count_message(count: usize, pattern: &str) -> (m: String)
    ensures
        m@ == decimal_digits(count as nat) + " matches for "@ + pattern@,
{
    let mut s = String::new();
    append_decimal(&mut s, count);
    s.append(" matches for ");
    s.append(pattern);
    proof {
        assert(s@ =~= decimal_digits(count as nat) + " matches for "@ + pattern@);
    }
    s
}

} // verus!
