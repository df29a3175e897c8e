use vstd::prelude::*;

use crate::text::{
    chars_less, contains_folded, lemma_lex_asym, lemma_lex_total, lemma_lex_trans, lex_lt,
    lower_of, lowercase, parse_u64, parse_unsigned, seq_contains, to_chars,
};

verus! {

/// One live process at the time a snapshot was taken.
pub struct ProcessInfo {
    /// Process identifier as text; numeric on the usual platforms.
    pub pid: String,
    pub name: String,
    /// Resident memory in bytes.
    pub memory_bytes: u64,
}

/// The column a snapshot is ordered by.
#[derive(Clone, Copy, Debug, PartialEq, Eq, Structural)]
pub enum SortColumn {
    Pid,
    Name,
    Memory,
}

/// Numeric value of a process identifier; one that does not parse counts as 0.
pub open spec fn pid_value(p: ProcessInfo) -> nat {
    match parse_unsigned(p.pid@) {
        Some(v) => v as nat,
        None => 0,
    }
}

/// The sort key of a record under a column: a number and a text, compared in
/// that order. Only one of the two varies for any one column.
pub open spec fn key_of(col: SortColumn, p: ProcessInfo) -> (nat, Seq<char>) {
    match col {
        SortColumn::Pid => (pid_value(p), Seq::empty()),
        SortColumn::Name => (0, p.name@),
        SortColumn::Memory => (p.memory_bytes as nat, Seq::empty()),
    }
}

pub open spec fn key_lt(a: (nat, Seq<char>), b: (nat, Seq<char>)) -> bool {
    a.0 < b.0 || (a.0 == b.0 && lex_lt(a.1, b.1))
}

/// `p` goes strictly before `q` in the order given by column and direction.
pub open spec fn before(col: SortColumn, ascending: bool, p: ProcessInfo, q: ProcessInfo) -> bool {
    if ascending {
        key_lt(key_of(col, p), key_of(col, q))
    } else {
        key_lt(key_of(col, q), key_of(col, p))
    }
}

/// No record goes strictly before one that precedes it.
pub open spec fn sorted_by(col: SortColumn, ascending: bool, s: Seq<ProcessInfo>) -> bool {
    forall|i: int, j: int|
        0 <= i < j < s.len() ==> !before(col, ascending, #[trigger] s[j], #[trigger] s[i])
}

/// `out` is `src` reordered through `perm` (out[k] is src[perm[k]]), sorted,
/// with records of equal key kept in their relative order.
pub open spec fn stable_order(
    col: SortColumn,
    ascending: bool,
    src: Seq<ProcessInfo>,
    out: Seq<ProcessInfo>,
    perm: Seq<int>,
) -> bool {
    &&& perm.len() == out.len() == src.len()
    &&& forall|k: int| 0 <= k < perm.len() ==> 0 <= #[trigger] perm[k] < src.len()
    &&& forall|k: int| 0 <= k < perm.len() ==> out[k] == src[#[trigger] perm[k]]
    &&& forall|i: int, j: int|
        0 <= i < j < out.len() ==> before(col, ascending, #[trigger] out[i], #[trigger] out[j]) || (
        !before(col, ascending, out[j], out[i]) && perm[i] < perm[j])
}

/// `out` is a stable sort of `src`.
pub open spec fn is_stable_sort(
    col: SortColumn,
    ascending: bool,
    src: Seq<ProcessInfo>,
    out: Seq<ProcessInfo>,
) -> bool {
    exists|perm: Seq<int>| stable_order(col, ascending, src, out, perm)
}

proof fn lemma_key_asym(a: (nat, Seq<char>), b: (nat, Seq<char>))
    ensures
        key_lt(a, b) ==> !key_lt(b, a),
{
    lemma_lex_asym(a.1, b.1);
}

proof fn lemma_key_trans(a: (nat, Seq<char>), b: (nat, Seq<char>), c: (nat, Seq<char>))
    requires
        key_lt(a, b),
        key_lt(b, c),
    ensures
        key_lt(a, c),
{
    if a.0 == b.0 && b.0 == c.0 {
        lemma_lex_trans(a.1, b.1, c.1);
    }
}

proof fn lemma_key_total(a: (nat, Seq<char>), b: (nat, Seq<char>))
    ensures
        key_lt(a, b) || key_lt(b, a) || a == b,
{
    lemma_lex_total(a.1, b.1);
}

proof fn lemma_before_asym(col: SortColumn, asc: bool, p: ProcessInfo, q: ProcessInfo)
    ensures
        before(col, asc, p, q) ==> !before(col, asc, q, p),
{
    lemma_key_asym(key_of(col, p), key_of(col, q));
    lemma_key_asym(key_of(col, q), key_of(col, p));
}

proof fn lemma_before_step(col: SortColumn, asc: bool, x: ProcessInfo, y: ProcessInfo, z: ProcessInfo)
    requires
        before(col, asc, x, y),
        !before(col, asc, z, y),
    ensures
        before(col, asc, x, z),
{
    let (kx, ky, kz) = (key_of(col, x), key_of(col, y), key_of(col, z));
    if asc {
        lemma_key_total(ky, kz);
        if key_lt(ky, kz) {
            lemma_key_trans(kx, ky, kz);
        }
    } else {
        lemma_key_total(ky, kz);
        if key_lt(kz, ky) {
            lemma_key_trans(kz, ky, kx);
        }
    }
}

/// The sort key of `p` under `col`.
fn sort_key(col: SortColumn, p: &ProcessInfo) -> (r: (u64, Vec<char>))
    ensures
        r.0 as nat == key_of(col, *p).0,
        r.1@ == key_of(col, *p).1,
{
    match col {
        SortColumn::Pid => {
            let v = match parse_u64(p.pid.as_str()) {
                Some(v) => v,
                None => 0,
            };
            (v, Vec::new())
        },
        SortColumn::Name => (0, to_chars(p.name.as_str())),
        SortColumn::Memory => (p.memory_bytes, Vec::new()),
    }
}

fn key_less(a: &(u64, Vec<char>), b: &(u64, Vec<char>)) -> (r: bool)
    ensures
        r == key_lt((a.0 as nat, a.1@), (b.0 as nat, b.1@)),
{
    a.0 < b.0 || (a.0 == b.0 && chars_less(&a.1, &b.1))
}

fn directed_less(ascending: bool, a: &(u64, Vec<char>), b: &(u64, Vec<char>)) -> (r: bool)
    ensures
        r == if ascending {
            key_lt((a.0 as nat, a.1@), (b.0 as nat, b.1@))
        } else {
            key_lt((b.0 as nat, b.1@), (a.0 as nat, a.1@))
        },
{
    if ascending {
        key_less(a, b)
    } else {
        key_less(b, a)
    }
}

/// Sorts `v` stably by column and direction.
pub fn stable_sorted(v: Vec<ProcessInfo>, col: SortColumn, ascending: bool) -> (r: Vec<
    ProcessInfo,
>)
    ensures
        is_stable_sort(col, ascending, v@, r@),
        sorted_by(col, ascending, r@),
{
    let ghost src = v@;
    let n = v.len();
    let mut rest = v;
    let mut out: Vec<ProcessInfo> = Vec::new();
    let mut keys: Vec<(u64, Vec<char>)> = Vec::new();
    let ghost mut perm: Seq<int> = Seq::empty();
    let mut k: usize = 0;
    while k < n
        invariant
            n == src.len(),
            k <= n,
            rest@ == src.subrange(k as int, n as int),
            out@.len() == k,
            keys@.len() == k,
            perm.len() == k,
            forall|t: int| 0 <= t < k ==> 0 <= #[trigger] perm[t] < k,
            forall|t: int| 0 <= t < k ==> out@[t] == src[#[trigger] perm[t]],
            forall|t: int|
                0 <= t < k ==> (#[trigger] keys@[t]).0 as nat == key_of(col, out@[t]).0
                    && keys@[t].1@ == key_of(col, out@[t]).1,
            forall|i: int, j: int|
                0 <= i < j < k ==> before(col, ascending, #[trigger] out@[i], #[trigger] out@[j])
                    || (!before(col, ascending, out@[j], out@[i]) && perm[i] < perm[j]),
        decreases n - k,
    {
        let x = rest.remove(0);
        assert(x == src[k as int]);
        let kx = sort_key(col, &x);
        let mut p: usize = 0;
        while p < k && !directed_less(ascending, &kx, &keys[p])
            invariant
                k == out@.len(),
                k == keys@.len(),
                p <= k,
                kx.0 as nat == key_of(col, x).0,
                kx.1@ == key_of(col, x).1,
                forall|t: int|
                    0 <= t < k ==> (#[trigger] keys@[t]).0 as nat == key_of(col, out@[t]).0
                        && keys@[t].1@ == key_of(col, out@[t]).1,
                forall|t: int| 0 <= t < p ==> !before(col, ascending, x, #[trigger] out@[t]),
            decreases k - p,
        {
            p = p + 1;
        }
        let ghost old_out = out@;
        let ghost old_perm = perm;
        assert(p < k ==> before(col, ascending, x, old_out[p as int]));
        out.insert(p, x);
        keys.insert(p, kx);
        proof {
            perm = perm.insert(p as int, k as int);
            assert forall|i: int, j: int| 0 <= i < j < k + 1 implies before(
                col,
                ascending,
                #[trigger] out@[i],
                #[trigger] out@[j],
            ) || (!before(col, ascending, out@[j], out@[i]) && perm[i] < perm[j]) by {
                if i == p {
                    let y = old_out[p as int];
                    if j - 1 > p {
                        lemma_before_asym(col, ascending, y, old_out[j - 1]);
                        lemma_before_step(col, ascending, x, y, old_out[j - 1]);
                    }
                } else if j == p {
                    assert(!before(col, ascending, x, old_out[i]));
                } else {
                    let i0 = if i < p { i } else { i - 1 };
                    let j0 = if j < p { j } else { j - 1 };
                    assert(out@[i] == old_out[i0] && out@[j] == old_out[j0]);
                    assert(perm[i] == old_perm[i0] && perm[j] == old_perm[j0]);
                }
            }
            assert forall|t: int| 0 <= t < k + 1 implies out@[t] == src[#[trigger] perm[t]] by {
                if t < p {
                    assert(out@[t] == old_out[t]);
                } else if t > p {
                    assert(out@[t] == old_out[t - 1]);
                    assert(perm[t] == old_perm[t - 1]);
                }
            }
            assert forall|t: int| 0 <= t < k + 1 implies 0 <= #[trigger] perm[t] < k + 1 by {
                if t > p {
                    assert(perm[t] == old_perm[t - 1]);
                }
            }
        }
        k = k + 1;
    }
    proof {
        assert(stable_order(col, ascending, src, out@, perm));
        assert forall|i: int, j: int| 0 <= i < j < out@.len() implies !before(
            col,
            ascending,
            #[trigger] out@[j],
            #[trigger] out@[i],
        ) by {
            lemma_before_asym(col, ascending, out@[i], out@[j]);
        }
    }
    out
}

/// `p` answers the search `query`: an empty query matches everything,
/// otherwise the lower-cased query occurs in the lower-cased name or
/// identifier.
pub open spec fn matches(query: Seq<char>, p: ProcessInfo) -> bool {
    query.len() == 0 || seq_contains(lower_of(p.name@), lower_of(query)) || seq_contains(
        lower_of(p.pid@),
        lower_of(query),
    )
}

/// Positions among the first `n` records of `s` that match `query`, in order.
pub open spec fn filter_upto(s: Seq<ProcessInfo>, query: Seq<char>, n: int) -> Seq<usize>
    decreases n,
{
    if n <= 0 {
        Seq::empty()
    } else {
        filter_upto(s, query, n - 1) + if matches(query, s[n - 1]) {
            seq![(n - 1) as usize]
        } else {
            Seq::empty()
        }
    }
}

/// Positions of all records of `s` that match `query`, in order.
pub open spec fn filtered(s: Seq<ProcessInfo>, query: Seq<char>) -> Seq<usize> {
    filter_upto(s, query, s.len() as int)
}

/// Every filtered position lies below `n`, and there are at most `n` of them.
pub proof fn lemma_filter_upto_bounds(s: Seq<ProcessInfo>, query: Seq<char>, n: int)
    requires
        0 <= n <= s.len(),
    ensures
        forall|t: int|
            0 <= t < filter_upto(s, query, n).len() ==> #[trigger] filter_upto(s, query, n)[t] < n,
        filter_upto(s, query, n).len() <= n,
    decreases n,
{
    if n > 0 {
        lemma_filter_upto_bounds(s, query, n - 1);
    }
}

/// Whether `p` matches the search `query`.
pub fn process_matches(query: &str, p: &ProcessInfo) -> (r: bool)
    ensures
        r == matches(query@, *p),
{
    if query.is_empty() {
        return true;
    }
    let q = lowercase(query);
    let name = lowercase(p.name.as_str());
    if contains_folded(name.as_str(), q.as_str()) {
        return true;
    }
    let pid = lowercase(p.pid.as_str());
    contains_folded(pid.as_str(), q.as_str())
}

/// Positions of the records of `s` that match `query`, in order.
pub fn filter_indices(s: &Vec<ProcessInfo>, query: &str) -> (r: Vec<usize>)
    ensures
        r@ == filtered(s@, query@),
{
    let mut r: Vec<usize> = Vec::new();
    let mut i: usize = 0;
    while i < s.len()
        invariant
            i <= s@.len(),
            r@ == filter_upto(s@, query@, i as int),
        decreases s@.len() - i,
    {
        if process_matches(query, &s[i]) {
            r.push(i);
        }
        i = i + 1;
    }
    r
}

} // verus!
