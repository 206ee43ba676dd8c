//! Dedicated-server helpers that do not touch the process: its launch
//! arguments, the status it reports, and which console lines are new.

use vstd::prelude::*;

verus! {

/// What the application reports about the dedicated server.
#[derive(Debug)]
pub struct ServerStatus {
    pub running: bool,
    pub pid: Option<u32>,
    pub managed_by_app: bool,
    pub server_path: String,
    pub log_count: usize,
}

/// The arguments the dedicated server is started with: the `Pal` map in
/// console server mode, with performance threads.
pub fn server_launch_args() -> (r: [&'static str; 4])
    ensures
        r[0]@ == "Pal"@,
        r[1]@ == "-useperfthreads"@,
        r[2]@ == "-NoAsyncLoadingThread"@,
        r[3]@ == "-UseMultithreadForDS"@,
{
    ["Pal", "-useperfthreads", "-NoAsyncLoadingThread", "-UseMultithreadForDS"]
}

/// The text of each line.
pub open spec fn lines_view(s: Seq<String>) -> Seq<Seq<char>> {
    s.map_values(|x: String| x@)
}

/// The last `k` lines of `p` are the first `k` lines of `c`.
pub open spec fn overlaps(p: Seq<Seq<char>>, c: Seq<Seq<char>>, k: int) -> bool {
    p.subrange(p.len() - k, p.len() as int) == c.subrange(0, k)
}

/// The largest `j <= k` for which the last `j` lines of `p` are the first
/// `j` lines of `c` (zero lines always are).
pub open spec fn best_overlap(p: Seq<Seq<char>>, c: Seq<Seq<char>>, k: nat) -> nat
    decreases k,
{
    if k == 0 || overlaps(p, c, k as int) {
        k
    } else {
        best_overlap(p, c, (k - 1) as nat)
    }
}

/// The lines of the console snapshot `c` that the snapshot `p` did not hold
/// yet: what follows the longest overlap of the end of `p` with the start of `c`.
pub open spec fn console_delta(p: Seq<Seq<char>>, c: Seq<Seq<char>>) -> Seq<Seq<char>> {
    let m = if p.len() < c.len() {
        p.len()
    } else {
        c.len()
    };
    c.skip(best_overlap(p, c, m) as int)
}

fn overlap_holds(previous: &[String], current: &[String], k: usize) -> (r: bool)
    requires
        k <= previous@.len(),
        k <= current@.len(),
    ensures
        r == overlaps(lines_view(previous@), lines_view(current@), k as int),
{
    let ghost p = lines_view(previous@);
    let ghost c = lines_view(current@);
    let np = previous.len();
    let base = np - k;
    let mut i: usize = 0;
    while i < k
        invariant
            np == previous@.len(),
            k <= previous@.len(),
            k <= current@.len(),
            base == previous@.len() - k,
            p == lines_view(previous@),
            c == lines_view(current@),
            i <= k,
            forall|j: int| 0 <= j < i ==> p[base + j] == c[j],
        decreases k - i,
    {
        if previous[base + i] != current[i] {
            assert(p.subrange(p.len() - k, p.len() as int)[i as int] != c.subrange(
                0,
                k as int,
            )[i as int]);
            return false;
        }
        i = i + 1;
    }
    assert(p.subrange(p.len() - k, p.len() as int) =~= c.subrange(0, k as int));
    true
}

/// The lines of the console snapshot `current` that `previous` did not hold
/// yet: everything after the longest run of lines that ends `previous` and
/// starts `current`.
pub fn console_line_delta(previous: &[String], current: &[String]) -> (r: Vec<String>)
    ensures
        lines_view(r@) == console_delta(lines_view(previous@), lines_view(current@)),
{
    let ghost p = lines_view(previous@);
    let ghost c = lines_view(current@);
    let max_overlap = if previous.len() < current.len() {
        previous.len()
    } else {
        current.len()
    };
    let mut k = max_overlap;
    while k > 0 && !overlap_holds(previous, current, k)
        invariant
            k <= max_overlap,
            max_overlap <= previous@.len(),
            max_overlap <= current@.len(),
            p == lines_view(previous@),
            c == lines_view(current@),
            max_overlap == (if p.len() < c.len() {
                p.len()
            } else {
                c.len()
            }),
            best_overlap(p, c, max_overlap as nat) == best_overlap(p, c, k as nat),
        decreases k,
    {
        k = k - 1;
    }
    let mut out: Vec<String> = Vec::new();
    let mut i = k;
    while i < current.len()
        invariant
            k <= i <= current@.len(),
            c == lines_view(current@),
            lines_view(out@) == c.subrange(k as int, i as int),
        decreases current@.len() - i,
    {
        let line = current[i].clone();
        let ghost before = out@;
        assert(line@ == c[i as int]);
        out.push(line);
        assert(lines_view(out@) =~= lines_view(before).push(c[i as int]));
        assert(lines_view(out@) =~= c.subrange(k as int, i + 1));
        i = i + 1;
    }
    assert(c.subrange(k as int, c.len() as int) =~= c.skip(k as int));
    out
}

} // verus!
