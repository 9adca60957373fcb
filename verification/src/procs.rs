//! Process rows: the order the table is sorted by, the stable sort itself,
//! and the search filter.
use crate::app::SortKey;
use crate::text::{chars_of, decimal, decimal_string, lowercase, to_lowercase};
use vstd::prelude::*;

verus! {

/// One row of the process table.
#[derive(Debug)]
pub struct ProcRow {
    pub pid: u32,
    pub name: String,
    /// CPU usage in percent, as the bit pattern of an `f32`
    /// (`f32::to_bits`); rows are ordered by it in the IEEE 754 total order
    /// that `f32`'s total comparison uses.
    pub cpu: u32,
    pub mem: u64,
}

impl Clone for ProcRow {
    fn clone(&self) -> (r: Self)
        ensures
            r == *self,
    {
        ProcRow { pid: self.pid, name: self.name.clone(), cpu: self.cpu, mem: self.mem }
    }
}

/// Three-way comparison of integers: -1, 0 or 1.
pub open spec fn three_way(a: int, b: int) -> int {
    if a < b {
        -1
    } else if a > b {
        1
    } else {
        0
    }
}

/// Position of an `f32` bit pattern in the IEEE 754 total order
/// (negative NaNs, -inf, ..., -0.0, +0.0, ..., +inf, positive NaNs).
pub open spec fn cpu_rank(bits: u32) -> int {
    if bits < 0x8000_0000 {
        bits as int
    } else {
        0x7FFF_FFFF - bits as int
    }
}

/// Lexicographic three-way comparison by code point, which is the order of
/// `String`'s `Ord` (UTF-8 bytes compare as their code points do).
pub open spec fn lex_order(s: Seq<char>, t: Seq<char>) -> int
    decreases s.len(),
{
    if s.len() == 0 {
        if t.len() == 0 {
            0
        } else {
            -1
        }
    } else if t.len() == 0 {
        1
    } else if (s[0] as u32) < (t[0] as u32) {
        -1
    } else if (s[0] as u32) > (t[0] as u32) {
        1
    } else {
        lex_order(s.drop_first(), t.drop_first())
    }
}

/// Comparison of two rows by one column, ascending, given the rows'
/// lower-cased names `la` and `lb` (used by the name column only).
pub open spec fn key_order_with(key: SortKey, a: ProcRow, b: ProcRow, la: Seq<char>, lb: Seq<char>) -> int {
    match key {
        SortKey::Pid => three_way(a.pid as int, b.pid as int),
        SortKey::Name => lex_order(la, lb),
        SortKey::Cpu => three_way(cpu_rank(a.cpu), cpu_rank(b.cpu)),
        SortKey::Mem => three_way(a.mem as int, b.mem as int),
    }
}

/// Comparison of two rows by one column, ascending.
pub open spec fn key_order(key: SortKey, a: ProcRow, b: ProcRow) -> int {
    key_order_with(key, a, b, lowercase(a.name@), lowercase(b.name@))
}

/// The table order given the rows' lower-cased names: the column in the
/// chosen direction, then PID ascending as the tie-break.
pub open spec fn row_order_with(
    key: SortKey,
    desc: bool,
    a: ProcRow,
    b: ProcRow,
    la: Seq<char>,
    lb: Seq<char>,
) -> int {
    let o = key_order_with(key, a, b, la, lb);
    let o = if desc {
        -o
    } else {
        o
    };
    if o != 0 {
        o
    } else {
        three_way(a.pid as int, b.pid as int)
    }
}

/// The table order: the column in the chosen direction, then PID
/// ascending as the tie-break.
pub open spec fn row_order(key: SortKey, desc: bool, a: ProcRow, b: ProcRow) -> int {
    row_order_with(key, desc, a, b, lowercase(a.name@), lowercase(b.name@))
}

/// Row `i` comes before row `j` in a stable sort: it orders first, or it
/// orders equal and came first.
pub open spec fn before(rows: Seq<ProcRow>, key: SortKey, desc: bool, i: int, j: int) -> bool {
    let o = row_order(key, desc, rows[i], rows[j]);
    o < 0 || (o == 0 && i < j)
}

/// `p` lists each of `0..n` exactly once.
pub open spec fn is_permutation(p: Seq<usize>, n: nat) -> bool {
    &&& p.len() == n
    &&& forall|k: int| 0 <= k < n ==> #[trigger] p[k] < n
    &&& forall|a: int, b: int| 0 <= a < b < n ==> p[a] != p[b]
    &&& forall|i: usize| i < n ==> p.contains(i)
}

/// The rows picked in the order `p`.
pub open spec fn permuted(rows: Seq<ProcRow>, p: Seq<usize>) -> Seq<ProcRow> {
    Seq::new(p.len(), |k: int| rows[p[k] as int])
}

/// `p` puts `rows` in stable-sort order.
pub open spec fn sorted_by(rows: Seq<ProcRow>, key: SortKey, desc: bool, p: Seq<usize>) -> bool {
    forall|a: int, b: int|
        0 <= a < b < p.len() ==> before(rows, key, desc, #[trigger] p[a] as int, #[trigger] p[b] as int)
}

/// `out` is `rows` stably sorted by the table order.
pub open spec fn is_stable_sort(
    out: Seq<ProcRow>,
    rows: Seq<ProcRow>,
    key: SortKey,
    desc: bool,
) -> bool {
    exists|p: Seq<usize>|
        #[trigger] is_permutation(p, rows.len()) && sorted_by(rows, key, desc, p) && out == permuted(
            rows,
            p,
        )
}

proof fn lemma_lex_antisym(s: Seq<char>, t: Seq<char>)
    ensures
        lex_order(s, t) == -lex_order(t, s),
    decreases s.len(),
{
    if s.len() > 0 && t.len() > 0 && (s[0] as u32) == (t[0] as u32) {
        lemma_lex_antisym(s.drop_first(), t.drop_first());
    }
}

proof fn lemma_lex_equal(s: Seq<char>, t: Seq<char>, u: Seq<char>)
    requires
        lex_order(s, t) == 0,
    ensures
        lex_order(s, u) == lex_order(t, u),
    decreases s.len(),
{
    if s.len() > 0 && t.len() > 0 && u.len() > 0 {
        lemma_lex_equal(s.drop_first(), t.drop_first(), u.drop_first());
    }
}

proof fn lemma_lex_trans(s: Seq<char>, t: Seq<char>, u: Seq<char>)
    requires
        lex_order(s, t) < 0,
        lex_order(t, u) < 0,
    ensures
        lex_order(s, u) < 0,
    decreases s.len(),
{
    if s.len() > 0 && t.len() > 0 && u.len() > 0 && (s[0] as u32) == (t[0] as u32) && (t[0]
        as u32) == (u[0] as u32) {
        lemma_lex_trans(s.drop_first(), t.drop_first(), u.drop_first());
    }
}

/// The column comparison is a total preorder.
proof fn lemma_key_order_props(key: SortKey, a: ProcRow, b: ProcRow, c: ProcRow)
    ensures
        key_order(key, a, b) == -key_order(key, b, a),
        -1 <= key_order(key, a, b) <= 1,
        key_order(key, a, b) < 0 && key_order(key, b, c) < 0 ==> key_order(key, a, c) < 0,
        key_order(key, a, b) == 0 ==> key_order(key, a, c) == key_order(key, b, c),
{
    if key is Name {
        let (x, y, z) = (lowercase(a.name@), lowercase(b.name@), lowercase(c.name@));
        lemma_lex_antisym(x, y);
        if lex_order(x, y) < 0 && lex_order(y, z) < 0 {
            lemma_lex_trans(x, y, z);
        }
        if lex_order(x, y) == 0 {
            lemma_lex_equal(x, y, z);
        }
        assert(lex_order(x, y) == -1 || lex_order(x, y) == 0 || lex_order(x, y) == 1) by {
            lemma_lex_range(x, y);
        }
    }
}

proof fn lemma_lex_range(s: Seq<char>, t: Seq<char>)
    ensures
        -1 <= lex_order(s, t) <= 1,
    decreases s.len(),
{
    if s.len() > 0 && t.len() > 0 && (s[0] as u32) == (t[0] as u32) {
        lemma_lex_range(s.drop_first(), t.drop_first());
    }
}

/// `before` is a strict total order on distinct positions.
proof fn lemma_before_order(rows: Seq<ProcRow>, key: SortKey, desc: bool, i: int, j: int, k: int)
    ensures
        i != j ==> (before(rows, key, desc, i, j) || before(rows, key, desc, j, i)),
        !(before(rows, key, desc, i, j) && before(rows, key, desc, j, i)),
        before(rows, key, desc, i, j) && before(rows, key, desc, j, k) ==> before(
            rows,
            key,
            desc,
            i,
            k,
        ),
{
    let (a, b, c) = (rows[i], rows[j], rows[k]);
    lemma_key_order_props(key, a, b, c);
    lemma_key_order_props(key, b, c, a);
    lemma_key_order_props(key, a, c, b);
    lemma_key_order_props(key, b, a, c);
    lemma_key_order_props(key, c, b, a);
    lemma_key_order_props(key, c, a, b);
}

fn three_way_u64(a: u64, b: u64) -> (r: i8)
    ensures
        r == three_way(a as int, b as int),
{
    if a < b {
        -1
    } else if a > b {
        1
    } else {
        0
    }
}

fn cpu_rank_exec(bits: u32) -> (r: i64)
    ensures
        r == cpu_rank(bits),
{
    if bits < 0x8000_0000 {
        bits as i64
    } else {
        0x7FFF_FFFFi64 - bits as i64
    }
}

fn lex_order_exec(s: &Vec<char>, t: &Vec<char>) -> (r: i8)
    ensures
        r == lex_order(s@, t@),
{
    let mut i: usize = 0;
    assert(s@.skip(0) =~= s@);
    assert(t@.skip(0) =~= t@);
    while i < s.len() && i < t.len()
        invariant
            i <= s@.len(),
            i <= t@.len(),
            lex_order(s@, t@) == lex_order(s@.skip(i as int), t@.skip(i as int)),
        decreases s@.len() - i,
    {
        let a = s[i] as u32;
        let b = t[i] as u32;
        if a < b {
            return -1;
        } else if a > b {
            return 1;
        }
        assert(s@.skip(i as int).drop_first() =~= s@.skip(i + 1));
        assert(t@.skip(i as int).drop_first() =~= t@.skip(i + 1));
        i = i + 1;
    }
    if i < s.len() {
        1
    } else if i < t.len() {
        -1
    } else {
        0
    }
}

fn key_order_exec(key: SortKey, a: &ProcRow, b: &ProcRow, la: &Vec<char>, lb: &Vec<char>) -> (r: i8)
    ensures
        r == key_order_with(key, *a, *b, la@, lb@),
{
    match key {
        SortKey::Pid => three_way_u64(a.pid as u64, b.pid as u64),
        SortKey::Name => lex_order_exec(la, lb),
        SortKey::Cpu => {
            let x = cpu_rank_exec(a.cpu);
            let y = cpu_rank_exec(b.cpu);
            if x < y {
                -1
            } else if x > y {
                1
            } else {
                0
            }
        },
        SortKey::Mem => three_way_u64(a.mem, b.mem),
    }
}

/// The table order of two rows (-1, 0 or 1), given their lower-cased
/// names `la` and `lb`, which only the name column reads.
pub fn order_rows(
    key: SortKey,
    desc: bool,
    a: &ProcRow,
    b: &ProcRow,
    la: &Vec<char>,
    lb: &Vec<char>,
) -> (r: i8)
    ensures
        r == row_order_with(key, desc, *a, *b, la@, lb@),
{
    proof {
        if key is Name {
            lemma_lex_range(la@, lb@);
        }
    }
    let o = key_order_exec(key, a, b, la, lb);
    let o = if desc {
        -o
    } else {
        o
    };
    if o != 0 {
        o
    } else {
        three_way_u64(a.pid as u64, b.pid as u64)
    }
}

/// The lower-cased names of the rows, when the name column is sorted by.
fn name_keys(rows: &Vec<ProcRow>, key: SortKey) -> (keys: Vec<Vec<char>>)
    ensures
        key is Name ==> keys@.len() == rows@.len(),
        key is Name ==> forall|i: int|
            0 <= i < rows@.len() ==> (#[trigger] keys@[i])@ == lowercase(rows@[i].name@),
{
    let mut keys: Vec<Vec<char>> = Vec::new();
    if key == SortKey::Name {
        let n = rows.len();
        for i in 0..n
            invariant
                n == rows@.len(),
                keys@.len() == i,
                forall|k: int| 0 <= k < i ==> (#[trigger] keys@[k])@ == lowercase(rows@[k].name@),
        {
            let low = to_lowercase(rows[i].name.as_str());
            keys.push(chars_of(low.as_str()));
        }
    }
    keys
}

/// `rows` stably sorted by `key` in the chosen direction, PID breaking
/// ties.
pub fn sort_rows(rows: &Vec<ProcRow>, key: SortKey, desc: bool) -> (out: Vec<ProcRow>)
    ensures
        is_stable_sort(out@, rows@, key, desc),
{
    let n = rows.len();
    let keys = name_keys(rows, key);
    let empty: Vec<char> = Vec::new();
    let mut order: Vec<usize> = Vec::new();
    for i in 0..n
        invariant
            n == rows@.len(),
            key is Name ==> keys@.len() == n,
            key is Name ==> forall|k: int|
                0 <= k < n ==> (#[trigger] keys@[k])@ == lowercase(rows@[k].name@),
            order@.len() == i,
            forall|k: int| 0 <= k < i ==> #[trigger] order@[k] < i,
            forall|a: int, b: int| 0 <= a < b < i ==> order@[a] != order@[b],
            forall|j: usize| j < i ==> order@.contains(j),
            sorted_by(rows@, key, desc, order@),
    {
        let ki = if key == SortKey::Name {
            &keys[i]
        } else {
            &empty
        };
        let mut p: usize = 0;
        while p < order.len()
            invariant
                n == rows@.len(),
                i < n,
                key is Name ==> keys@.len() == n,
                key is Name ==> forall|k: int|
                    0 <= k < n ==> (#[trigger] keys@[k])@ == lowercase(rows@[k].name@),
                key is Name ==> ki@ == lowercase(rows@[i as int].name@),
                order@.len() == i,
                forall|k: int| 0 <= k < i ==> #[trigger] order@[k] < i,
                p <= order@.len(),
                forall|k: int| 0 <= k < p ==> before(rows@, key, desc, #[trigger] order@[k] as int, i as int),
            ensures
                p <= order@.len(),
                forall|k: int| 0 <= k < p ==> before(rows@, key, desc, #[trigger] order@[k] as int, i as int),
                p < order@.len() ==> row_order(key, desc, rows@[i as int], rows@[order@[p as int] as int]) < 0,
            decreases order@.len() - p,
        {
            let j = order[p];
            let kj = if key == SortKey::Name {
                &keys[j]
            } else {
                &empty
            };
            let o = order_rows(key, desc, &rows[i], &rows[j], ki, kj);
            if o < 0 {
                break;
            }
            proof {
                lemma_before_order(rows@, key, desc, j as int, i as int, i as int);
            }
            p = p + 1;
        }
        proof {
            // Everything from `p` on comes after `i`.
            assert forall|k: int| p <= k < i implies before(rows@, key, desc, i as int, #[trigger] order@[k] as int) by {
                if p < i {
                    assert(before(rows@, key, desc, i as int, order@[p as int] as int)) by {
                        lemma_before_order(rows@, key, desc, i as int, order@[p as int] as int, i as int);
                    }
                    if k > p {
                        lemma_before_order(rows@, key, desc, i as int, order@[p as int] as int, order@[k] as int);
                    }
                }
            }
        }
        let ghost old_order = order@;
        order.insert(p, i);
        proof {
            let no = order@;
            assert(no =~= old_order.insert(p as int, i));
            assert forall|a: int, b: int| 0 <= a < b < no.len() implies before(rows@, key, desc, #[trigger] no[a] as int, #[trigger] no[b] as int) by {
                if b < p {
                    assert(no[a] == old_order[a] && no[b] == old_order[b]);
                } else if b == p {
                    assert(no[a] == old_order[a]);
                } else if a == p {
                    assert(no[b] == old_order[b - 1]);
                } else if a < p {
                    assert(no[a] == old_order[a] && no[b] == old_order[b - 1]);
                } else {
                    assert(no[a] == old_order[a - 1] && no[b] == old_order[b - 1]);
                }
            }
            assert forall|j: usize| j < i + 1 implies no.contains(j) by {
                if j == i {
                    assert(no[p as int] == i);
                } else {
                    assert(old_order.contains(j));
                    let w = choose|w: int| 0 <= w < old_order.len() && old_order[w] == j;
                    if w < p {
                        assert(no[w] == j);
                    } else {
                        assert(no[w + 1] == j);
                    }
                }
            }
            assert forall|a: int, b: int| 0 <= a < b < i + 1 implies no[a] != no[b] by {
                if a == p {
                    assert(no[b] == old_order[b - 1]);
                } else if b == p {
                    assert(no[a] == old_order[a]);
                } else {
                    let a0 = if a < p { a } else { a - 1 };
                    let b0 = if b < p { b } else { b - 1 };
                    assert(no[a] == old_order[a0] && no[b] == old_order[b0]);
                }
            }
            assert forall|k: int| 0 <= k < i + 1 implies #[trigger] no[k] < i + 1 by {
                if k < p {
                    assert(no[k] == old_order[k]);
                } else if k > p {
                    assert(no[k] == old_order[k - 1]);
                }
            }
        }
    }
    let mut out: Vec<ProcRow> = Vec::new();
    for k in 0..n
        invariant
            n == rows@.len(),
            order@.len() == n,
            forall|m: int| 0 <= m < n ==> #[trigger] order@[m] < n,
            out@ =~= permuted(rows@, order@).take(k as int),
    {
        out.push(rows[order[k]].clone());
    }
    proof {
        assert(out@ =~= permuted(rows@, order@));
        assert(is_permutation(order@, n as nat));
    }
    out
}

} // verus!

verus! {

/// `q` occurs in `s` as a contiguous run (the empty string occurs
/// everywhere).
pub open spec fn contains_seq(s: Seq<char>, q: Seq<char>) -> bool {
    exists|k: int| 0 <= k && k + q.len() <= s.len() && #[trigger] s.subrange(k, k + q.len()) == q
}

/// `p` is a prefix of `s`.
pub open spec fn is_prefix(p: Seq<char>, s: Seq<char>) -> bool {
    p.len() <= s.len() && s.take(p.len() as int) == p
}

/// A lower-cased name and a PID match a lower-cased query when the name
/// contains it or the decimal PID starts with it.
pub open spec fn name_or_pid_matches(name_lower: Seq<char>, pid: u32, q: Seq<char>) -> bool {
    contains_seq(name_lower, q) || is_prefix(q, decimal(pid as nat))
}

/// A row matches a lower-cased query when its lower-cased name contains it
/// or its decimal PID starts with it.
pub open spec fn row_matches(r: ProcRow, q: Seq<char>) -> bool {
    name_or_pid_matches(lowercase(r.name@), r.pid, q)
}

/// The rows that a search shows, in table order: all of them for an empty
/// query.
pub open spec fn visible_rows(procs: Seq<ProcRow>, search: Seq<char>) -> Seq<ProcRow> {
    if search.len() == 0 {
        procs
    } else {
        let q = lowercase(search);
        procs.filter(|r: ProcRow| row_matches(r, q))
    }
}

/// Substring search.
pub fn contains_chars(s: &Vec<char>, q: &Vec<char>) -> (b: bool)
    ensures
        b == contains_seq(s@, q@),
{
    let sn = s.len();
    let qn = q.len();
    if qn > sn {
        return false;
    }
    let last = sn - qn;
    let mut k: usize = 0;
    while k <= last
        invariant
            sn == s@.len(),
            qn == q@.len(),
            last == sn - qn,
            k <= last + 1,
            forall|j: int| 0 <= j < k ==> #[trigger] s@.subrange(j, j + q@.len()) != q@,
        decreases last + 1 - k,
    {
        let mut m: usize = 0;
        while m < qn && s[k + m] == q[m]
            invariant
                sn == s@.len(),
                qn == q@.len(),
                k <= last,
                last == sn - qn,
                m <= qn,
                forall|x: int| 0 <= x < m ==> s@[k + x] == q@[x],
            decreases qn - m,
        {
            m = m + 1;
        }
        if m == qn {
            assert(s@.subrange(k as int, k + qn) =~= q@);
            return true;
        }
        assert(s@.subrange(k as int, k + qn)[m as int] != q@[m as int]);
        k = k + 1;
    }
    false
}

/// The decimal digits of a PID.
fn pid_chars(pid: u32) -> (v: Vec<char>)
    ensures
        v@ == decimal(pid as nat),
{
    let s = decimal_string(pid as u64);
    chars_of(s.as_str())
}

/// Prefix test.
pub fn starts_with_chars(s: &Vec<char>, p: &Vec<char>) -> (b: bool)
    ensures
        b == is_prefix(p@, s@),
{
    let pn = p.len();
    if pn > s.len() {
        return false;
    }
    let mut m: usize = 0;
    while m < pn
        invariant
            pn == p@.len(),
            pn <= s@.len(),
            m <= pn,
            forall|x: int| 0 <= x < m ==> s@[x] == p@[x],
        decreases pn - m,
    {
        if s[m] != p[m] {
            assert(s@.take(pn as int)[m as int] != p@[m as int]);
            return false;
        }
        m = m + 1;
    }
    assert(s@.take(pn as int) =~= p@);
    true
}

/// Whether a lower-cased name and a PID match the lower-cased query `q`:
/// the name contains it, or the decimal PID starts with it.
pub fn matches_query(name_lower: &Vec<char>, pid: u32, q: &Vec<char>) -> (b: bool)
    ensures
        b == name_or_pid_matches(name_lower@, pid, q@),
{
    if contains_chars(name_lower, q) {
        return true;
    }
    let digits = pid_chars(pid);
    starts_with_chars(&digits, q)
}

/// Whether a row matches the lower-cased query `q`.
fn row_matches_exec(r: &ProcRow, q: &Vec<char>) -> (b: bool)
    ensures
        b == row_matches(*r, q@),
{
    let low = to_lowercase(r.name.as_str());
    let name = chars_of(low.as_str());
    matches_query(&name, r.pid, q)
}

/// Processes matching a search (name substring or PID prefix, ignoring
/// case). An empty query returns all rows.
pub fn filter_rows<'a>(procs: &'a Vec<ProcRow>, search: &String) -> (v: Vec<&'a ProcRow>)
    ensures
        v@.map_values(|r: &ProcRow| *r) == visible_rows(procs@, search@),
{
    let n = procs.len();
    let mut v: Vec<&ProcRow> = Vec::new();
    if search.as_str().unicode_len() == 0 {
        for i in 0..n
            invariant
                n == procs@.len(),
                v@.map_values(|r: &ProcRow| *r) =~= procs@.take(i as int),
        {
            let ghost old_v = v@;
            v.push(&procs[i]);
            assert(v@.map_values(|r: &ProcRow| *r) =~= old_v.map_values(|r: &ProcRow| *r).push(
                procs@[i as int],
            ));
            assert(procs@.take(i + 1) =~= procs@.take(i as int).push(procs@[i as int]));
        }
        assert(procs@.take(n as int) =~= procs@);
        return v;
    }
    let lq = to_lowercase(search.as_str());
    let q = chars_of(lq.as_str());
    let ghost f = |r: ProcRow| row_matches(r, q@);
    for i in 0..n
        invariant
            n == procs@.len(),
            q@ == lowercase(search@),
            f == (|r: ProcRow| row_matches(r, q@)),
            v@.map_values(|r: &ProcRow| *r) =~= procs@.take(i as int).filter(f),
    {
        let ghost old_v = v@;
        assert(procs@.take(i + 1).drop_last() =~= procs@.take(i as int));
        assert(procs@.take(i + 1).last() == procs@[i as int]);
        reveal_with_fuel(Seq::filter, 1);
        if row_matches_exec(&procs[i], &q) {
            v.push(&procs[i]);
            assert(v@.map_values(|r: &ProcRow| *r) =~= old_v.map_values(|r: &ProcRow| *r).push(
                procs@[i as int],
            ));
        }
    }
    assert(procs@.take(n as int) =~= procs@);
    v
}

/// Strict table order of two row positions.
pub open spec fn ranks_before(rows: Seq<ProcRow>, key: SortKey, desc: bool, i: usize, j: usize) -> bool {
    row_order(key, desc, rows[i as int], rows[j as int]) < 0
}

/// `s` has no repeated entry.
pub open spec fn no_repeats(s: Seq<usize>) -> bool {
    forall|a: int, b: int| 0 <= a < b < s.len() ==> s[a] != s[b]
}

/// `s` lists positions in strictly increasing table order.
pub open spec fn strictly_ranked(rows: Seq<ProcRow>, key: SortKey, desc: bool, s: Seq<usize>) -> bool {
    forall|a: int, b: int|
        0 <= a < b < s.len() ==> ranks_before(rows, key, desc, #[trigger] s[a], #[trigger] s[b])
}

proof fn lemma_row_order_antisym(key: SortKey, desc: bool, x: ProcRow, y: ProcRow)
    ensures
        row_order(key, desc, x, y) == -row_order(key, desc, y, x),
{
    lemma_key_order_props(key, x, y, y);
}

/// Two repetition-free, strictly ranked lists of the same positions are
/// the same list.
proof fn lemma_ranked_unique(rows: Seq<ProcRow>, key: SortKey, desc: bool, a: Seq<usize>, b: Seq<usize>)
    requires
        a.len() == b.len(),
        no_repeats(a),
        no_repeats(b),
        forall|x: usize| a.contains(x) <==> b.contains(x),
        strictly_ranked(rows, key, desc, a),
        strictly_ranked(rows, key, desc, b),
    ensures
        a == b,
    decreases a.len(),
{
    if a.len() > 0 {
        assert(a.contains(a[0]));
        assert(b.contains(b[0]));
        let j = choose|j: int| 0 <= j < b.len() && b[j] == a[0];
        let i = choose|i: int| 0 <= i < a.len() && a[i] == b[0];
        if i > 0 && j > 0 {
            assert(ranks_before(rows, key, desc, b[0], b[j]));
            assert(ranks_before(rows, key, desc, a[0], a[i]));
            lemma_row_order_antisym(key, desc, rows[a[0] as int], rows[b[0] as int]);
        }
        assert(a[0] == b[0]);
        let (ta, tb) = (a.drop_first(), b.drop_first());
        assert forall|x: usize| ta.contains(x) <==> tb.contains(x) by {
            if ta.contains(x) {
                let k = choose|k: int| 0 <= k < ta.len() && ta[k] == x;
                assert(a[k + 1] == x);
                assert(a.contains(x));
                assert(x != a[0]);
                let m = choose|m: int| 0 <= m < b.len() && b[m] == x;
                assert(m != 0);
                assert(tb[m - 1] == x);
            }
            if tb.contains(x) {
                let k = choose|k: int| 0 <= k < tb.len() && tb[k] == x;
                assert(b[k + 1] == x);
                assert(b.contains(x));
                assert(x != b[0]);
                let m = choose|m: int| 0 <= m < a.len() && a[m] == x;
                assert(m != 0);
                assert(ta[m - 1] == x);
            }
        }
        assert forall|u: int, v: int| 0 <= u < v < ta.len() implies ranks_before(rows, key, desc, #[trigger] ta[u], #[trigger] ta[v]) by {
            assert(ta[u] == a[u + 1] && ta[v] == a[v + 1]);
        }
        assert forall|u: int, v: int| 0 <= u < v < tb.len() implies ranks_before(rows, key, desc, #[trigger] tb[u], #[trigger] tb[v]) by {
            assert(tb[u] == b[u + 1] && tb[v] == b[v + 1]);
        }
        lemma_ranked_unique(rows, key, desc, ta, tb);
        assert(a =~= b) by {
            assert forall|k: int| 0 <= k < a.len() implies a[k] == b[k] by {
                if k > 0 {
                    assert(a[k] == ta[k - 1] && b[k] == tb[k - 1]);
                }
            }
        }
    }
}

/// With distinct PIDs the order is strict between different rows.
proof fn lemma_distinct_pids_strict(
    rows: Seq<ProcRow>,
    key: SortKey,
    desc: bool,
    i: int,
    j: int,
)
    requires
        0 <= i < rows.len(),
        0 <= j < rows.len(),
        i != j,
        forall|a: int, b: int| 0 <= a < b < rows.len() ==> rows[a].pid != rows[b].pid,
        before(rows, key, desc, i, j),
    ensures
        row_order(key, desc, rows[i], rows[j]) < 0,
{
    if i < j {
        assert(rows[i].pid != rows[j].pid);
    } else {
        assert(rows[j].pid != rows[i].pid);
    }
}

/// When no two processes share a PID, the sorted table does not depend on
/// the order in which the rows arrive: sorting the same rows in any other
/// order gives the same table, so rows never jitter between ticks.
pub proof fn lemma_sort_ignores_arrival_order(
    rows: Seq<ProcRow>,
    q: Seq<usize>,
    key: SortKey,
    desc: bool,
    out1: Seq<ProcRow>,
    out2: Seq<ProcRow>,
)
    requires
        rows.len() <= usize::MAX,
        forall|a: int, b: int| 0 <= a < b < rows.len() ==> rows[a].pid != rows[b].pid,
        is_permutation(q, rows.len()),
        is_stable_sort(out1, rows, key, desc),
        is_stable_sort(out2, permuted(rows, q), key, desc),
    ensures
        out1 == out2,
{
    let n = rows.len();
    let rows2 = permuted(rows, q);
    let p1 = choose|p: Seq<usize>|
        #[trigger] is_permutation(p, rows.len()) && sorted_by(rows, key, desc, p) && out1 == permuted(rows, p);
    let p2 = choose|p: Seq<usize>|
        #[trigger] is_permutation(p, rows2.len()) && sorted_by(rows2, key, desc, p) && out2 == permuted(rows2, p);
    let r = Seq::new(n, |k: int| q[p2[k] as int]);
    assert forall|a: int, b: int| 0 <= a < b < n implies p1[a] != p1[b] by {}
    assert forall|a: int, b: int| 0 <= a < b < n implies r[a] != r[b] by {
        assert(p2[a] != p2[b]);
        if p2[a] < p2[b] {
            assert(q[p2[a] as int] != q[p2[b] as int]);
        } else {
            assert(q[p2[b] as int] != q[p2[a] as int]);
        }
    }
    assert forall|x: usize| p1.contains(x) <==> r.contains(x) by {
        if p1.contains(x) {
            let k = choose|k: int| 0 <= k < p1.len() && p1[k] == x;
            assert(x < n);
            assert(q.contains(x));
            let m = choose|m: int| 0 <= m < q.len() && q[m] == x;
            assert(p2.contains(m as usize));
            let k2 = choose|k2: int| 0 <= k2 < p2.len() && p2[k2] == m as usize;
            assert(r[k2] == x);
        }
        if r.contains(x) {
            let k = choose|k: int| 0 <= k < r.len() && r[k] == x;
            assert(p2[k] < n);
            assert(x < n);
            assert(p1.contains(x));
        }
    }
    assert forall|a: int, b: int| 0 <= a < b < n implies ranks_before(rows, key, desc, #[trigger] p1[a], #[trigger] p1[b]) by {
        assert(before(rows, key, desc, p1[a] as int, p1[b] as int));
        lemma_distinct_pids_strict(rows, key, desc, p1[a] as int, p1[b] as int);
    }
    assert forall|a: int, b: int| 0 <= a < b < n implies ranks_before(rows, key, desc, #[trigger] r[a], #[trigger] r[b]) by {
        assert(before(rows2, key, desc, p2[a] as int, p2[b] as int));
        assert(rows2[p2[a] as int] == rows[r[a] as int]);
        assert(rows2[p2[b] as int] == rows[r[b] as int]);
        assert(r[a] != r[b]);
        assert(r[a] < n && r[b] < n);
        if r[a] < r[b] {
            assert(rows[r[a] as int].pid != rows[r[b] as int].pid);
        } else {
            assert(rows[r[b] as int].pid != rows[r[a] as int].pid);
        }
    }
    lemma_ranked_unique(rows, key, desc, p1, r);
    assert(out1 =~= out2);
}

/// A search shows exactly the matching rows: every row it shows is a row
/// of the table that matches the lower-cased query, every matching row is
/// shown, and an empty query shows the whole table.
pub proof fn lemma_visible_rows_exact(procs: Seq<ProcRow>, search: Seq<char>)
    ensures
        search.len() == 0 ==> visible_rows(procs, search) == procs,
        search.len() > 0 ==> forall|i: int|
            0 <= i < visible_rows(procs, search).len() ==> procs.contains(
                #[trigger] visible_rows(procs, search)[i],
            ) && row_matches(visible_rows(procs, search)[i], lowercase(search)),
        search.len() > 0 ==> forall|j: int|
            0 <= j < procs.len() && row_matches(#[trigger] procs[j], lowercase(search))
                ==> visible_rows(procs, search).contains(procs[j]),
{
    if search.len() > 0 {
        let q = lowercase(search);
        let f = |r: ProcRow| row_matches(r, q);
        assert forall|i: int| 0 <= i < procs.filter(f).len() implies procs.contains(
            #[trigger] procs.filter(f)[i],
        ) && row_matches(procs.filter(f)[i], q) by {
            procs.lemma_filter_pred(f, i);
            assert(procs.filter(f).contains(procs.filter(f)[i]));
            procs.lemma_filter_contains_rev(f, procs.filter(f)[i]);
        }
        assert forall|j: int| 0 <= j < procs.len() && row_matches(#[trigger] procs[j], q) implies procs.filter(
            f,
        ).contains(procs[j]) by {
            procs.lemma_filter_contains(f, j);
        }
    }
}

/// `s` comes before `t` at position `k`: both agree on their first `k`
/// characters, and there `s` has ended while `t` goes on, or `s` has the
/// smaller code point.
pub open spec fn precedes_at(s: Seq<char>, t: Seq<char>, k: int) -> bool {
    &&& 0 <= k <= s.len()
    &&& k <= t.len()
    &&& s.take(k) == t.take(k)
    &&& ((k == s.len() && k < t.len()) || (k < s.len() && k < t.len() && (s[k] as u32) < (
    t[k] as u32)))
}

proof fn lemma_char_eq(c: char, d: char)
    requires
        (c as u32) == (d as u32),
    ensures
        c == d,
{
    assert((c as int) == (d as int));
}

proof fn lemma_lex_less(s: Seq<char>, t: Seq<char>)
    ensures
        lex_order(s, t) < 0 <==> exists|k: int| #[trigger] precedes_at(s, t, k),
        lex_order(s, t) == 0 <==> s == t,
    decreases s.len(),
{
    if s.len() == 0 && t.len() == 0 {
        assert(s =~= t);
        assert forall|k: int| !precedes_at(s, t, k) by {}
    } else if s.len() == 0 {
        assert(s.take(0) =~= t.take(0));
        assert(precedes_at(s, t, 0));
        assert(s != t) by {
            assert(s.len() != t.len());
        }
    } else if t.len() == 0 {
        assert forall|k: int| !precedes_at(s, t, k) by {}
        assert(s != t) by {
            assert(s.len() != t.len());
        }
    } else if (s[0] as u32) != (t[0] as u32) {
        assert(s.take(0) =~= t.take(0));
        assert(s != t) by {
            if s == t {
                assert(s[0] == t[0]);
            }
        }
        assert forall|k: int| k >= 1 implies !#[trigger] precedes_at(s, t, k) by {
            if 1 <= k <= s.len() && k <= t.len() && s.take(k) == t.take(k) {
                assert(s.take(k)[0] == s[0]);
                assert(t.take(k)[0] == t[0]);
            }
        }
        if (s[0] as u32) < (t[0] as u32) {
            assert(precedes_at(s, t, 0));
        } else {
            assert(!precedes_at(s, t, 0));
        }
    } else {
        lemma_char_eq(s[0], t[0]);
        let (s1, t1) = (s.drop_first(), t.drop_first());
        lemma_lex_less(s1, t1);
        assert(lex_order(s, t) == lex_order(s1, t1));
        assert(!precedes_at(s, t, 0));
        // Positions shift by one between the names and their tails.
        assert forall|k: int| k >= 1 implies (#[trigger] precedes_at(s, t, k) <==> precedes_at(
            s1,
            t1,
            k - 1,
        )) by {
            if 1 <= k <= s.len() && k <= t.len() {
                assert(s1.take(k - 1) =~= s.take(k).drop_first());
                assert(t1.take(k - 1) =~= t.take(k).drop_first());
                assert(s.take(k) =~= seq![s[0]] + s1.take(k - 1));
                assert(t.take(k) =~= seq![t[0]] + t1.take(k - 1));
                if k < s.len() {
                    assert(s1[k - 1] == s[k]);
                }
                if k < t.len() {
                    assert(t1[k - 1] == t[k]);
                }
            }
        }
        if exists|k: int| #[trigger] precedes_at(s, t, k) {
            let k = choose|k: int| #[trigger] precedes_at(s, t, k);
            assert(precedes_at(s1, t1, k - 1));
        }
        if exists|k: int| #[trigger] precedes_at(s1, t1, k) {
            let k = choose|k: int| #[trigger] precedes_at(s1, t1, k);
            assert(precedes_at(s, t, k + 1));
        }
        if s1 == t1 {
            assert forall|i: int| 0 <= i < s.len() implies s[i] == t[i] by {
                if i > 0 {
                    assert(s[i] == s1[i - 1]);
                    assert(t[i] == t1[i - 1]);
                }
            }
            assert(s =~= t);
        }
        if s == t {
            assert(s1 =~= t1);
        }
    }
}

/// The name column's order is the lexicographic order of code points: a
/// name comes first exactly when, at the first place where the two differ,
/// it has ended or has the smaller character; names order equal only when
/// they are the same.
pub proof fn lemma_name_order_is_lexicographic(s: Seq<char>, t: Seq<char>)
    ensures
        lex_order(s, t) < 0 <==> exists|k: int| #[trigger] precedes_at(s, t, k),
        lex_order(s, t) > 0 <==> exists|k: int| #[trigger] precedes_at(t, s, k),
        lex_order(s, t) == 0 <==> s == t,
{
    lemma_lex_less(s, t);
    lemma_lex_less(t, s);
    lemma_lex_antisym(s, t);
}

/// The CPU column follows the floats' total order: different bit patterns
/// never rank equal; among non-negative values (sign bit clear) a larger
/// pattern is a larger float and ranks higher; among negative ones a larger
/// pattern is a more negative float and ranks lower; and every negative
/// ranks below every non-negative.
pub proof fn lemma_cpu_order_follows_the_floats(a: u32, b: u32)
    ensures
        a != b ==> cpu_rank(a) != cpu_rank(b),
        a < b < 0x8000_0000 ==> cpu_rank(a) < cpu_rank(b),
        0x8000_0000 <= a < b ==> cpu_rank(b) < cpu_rank(a),
        b < 0x8000_0000 <= a ==> cpu_rank(a) < cpu_rank(b),
{
}

/// In a table sorted by CPU, non-negative usages come in order: ascending
/// from the top when ascending, descending when descending.
pub proof fn lemma_cpu_sorted_table(out: Seq<ProcRow>, rows: Seq<ProcRow>, desc: bool, a: int, b: int)
    requires
        is_stable_sort(out, rows, SortKey::Cpu, desc),
        0 <= a < b < out.len(),
        out[a].cpu < 0x8000_0000,
        out[b].cpu < 0x8000_0000,
    ensures
        desc ==> out[a].cpu >= out[b].cpu,
        !desc ==> out[a].cpu <= out[b].cpu,
{
    let p = choose|p: Seq<usize>|
        #[trigger] is_permutation(p, rows.len()) && sorted_by(rows, SortKey::Cpu, desc, p) && out
            == permuted(rows, p);
    assert(before(rows, SortKey::Cpu, desc, p[a] as int, p[b] as int));
    assert(out[a] == rows[p[a] as int] && out[b] == rows[p[b] as int]);
}

/// In a sorted table the PID and memory columns come in order, ascending
/// from the top when ascending and descending when descending; and rows
/// that tie on the column (same PID, memory, CPU bit pattern or lower-cased
/// name) are listed by PID ascending in either direction.
pub proof fn lemma_sorted_table(out: Seq<ProcRow>, rows: Seq<ProcRow>, key: SortKey, desc: bool, a: int, b: int)
    requires
        is_stable_sort(out, rows, key, desc),
        0 <= a < b < out.len(),
    ensures
        key == SortKey::Pid && !desc ==> out[a].pid <= out[b].pid,
        key == SortKey::Pid && desc ==> out[a].pid >= out[b].pid,
        key == SortKey::Mem && !desc ==> out[a].mem <= out[b].mem,
        key == SortKey::Mem && desc ==> out[a].mem >= out[b].mem,
        ({
            let tie = match key {
                SortKey::Pid => out[a].pid == out[b].pid,
                SortKey::Mem => out[a].mem == out[b].mem,
                SortKey::Cpu => out[a].cpu == out[b].cpu,
                SortKey::Name => lowercase(out[a].name@) == lowercase(out[b].name@),
            };
            tie ==> out[a].pid <= out[b].pid
        }),
{
    let p = choose|p: Seq<usize>|
        #[trigger] is_permutation(p, rows.len()) && sorted_by(rows, key, desc, p) && out
            == permuted(rows, p);
    assert(before(rows, key, desc, p[a] as int, p[b] as int));
    assert(out[a] == rows[p[a] as int] && out[b] == rows[p[b] as int]);
    lemma_name_order_is_lexicographic(lowercase(out[a].name@), lowercase(out[b].name@));
}

/// In a table sorted by name, no lower-cased name comes lexicographically
/// before the one listed above it (ascending), or after it (descending).
pub proof fn lemma_name_sorted_table(out: Seq<ProcRow>, rows: Seq<ProcRow>, desc: bool, a: int, b: int)
    requires
        is_stable_sort(out, rows, SortKey::Name, desc),
        0 <= a < b < out.len(),
    ensures
        !desc ==> !exists|k: int|
            #[trigger] precedes_at(lowercase(out[b].name@), lowercase(out[a].name@), k),
        desc ==> !exists|k: int|
            #[trigger] precedes_at(lowercase(out[a].name@), lowercase(out[b].name@), k),
{
    let p = choose|p: Seq<usize>|
        #[trigger] is_permutation(p, rows.len()) && sorted_by(rows, SortKey::Name, desc, p) && out
            == permuted(rows, p);
    assert(before(rows, SortKey::Name, desc, p[a] as int, p[b] as int));
    assert(out[a] == rows[p[a] as int] && out[b] == rows[p[b] as int]);
    lemma_name_order_is_lexicographic(lowercase(out[a].name@), lowercase(out[b].name@));
}

/// `q` occurs in `n` starting at position `k`.
pub open spec fn occurs_at(n: Seq<char>, q: Seq<char>, k: int) -> bool {
    0 <= k && k + q.len() <= n.len() && forall|i: int| 0 <= i < q.len() ==> n[k + i] == #[trigger] q[i]
}

/// What a query matches: a lower-cased name and a PID match a query of any
/// length exactly when the query's characters occur in the name one after
/// another from some position, or the decimal PID starts with them (so a
/// single digit matches every PID that starts with it).
pub proof fn lemma_query_match_rule(n: Seq<char>, pid: u32, q: Seq<char>)
    ensures
        ({
            let d = decimal(pid as nat);
            name_or_pid_matches(n, pid, q) <==> (
            (q.len() <= d.len() && forall|i: int| 0 <= i < q.len() ==> d[i] == q[i])
                || exists|k: int| #[trigger] occurs_at(n, q, k))
        }),
{
    let d = decimal(pid as nat);
    let pre = q.len() <= d.len() && forall|i: int| 0 <= i < q.len() ==> d[i] == q[i];
    let sub = exists|k: int| #[trigger] occurs_at(n, q, k);
    if q.len() <= d.len() {
        if d.take(q.len() as int) == q {
            assert forall|i: int| 0 <= i < q.len() implies d[i] == q[i] by {
                assert(d.take(q.len() as int)[i] == d[i]);
            }
        }
        if pre {
            assert(d.take(q.len() as int) =~= q);
        }
    }
    if contains_seq(n, q) {
        let k = choose|k: int| 0 <= k && k + q.len() <= n.len() && #[trigger] n.subrange(k, k + q.len()) == q;
        assert forall|i: int| 0 <= i < q.len() implies n[k + i] == #[trigger] q[i] by {
            assert(n.subrange(k, k + q.len())[i] == n[k + i]);
        }
        assert(occurs_at(n, q, k));
    }
    if sub {
        let k = choose|k: int| #[trigger] occurs_at(n, q, k);
        assert(n.subrange(k, k + q.len()) =~= q);
    }
}

/// The search rule: a row is shown for a non-empty query exactly when its
/// lower-cased name contains the lower-cased query somewhere, or its
/// decimal PID starts with it, whatever the query's length.
pub proof fn lemma_search_rule(procs: Seq<ProcRow>, search: Seq<char>, r: ProcRow)
    requires
        search.len() > 0,
        procs.contains(r),
    ensures
        ({
            let q = lowercase(search);
            let d = decimal(r.pid as nat);
            let n = lowercase(r.name@);
            visible_rows(procs, search).contains(r) <==> (
            (q.len() <= d.len() && forall|i: int| 0 <= i < q.len() ==> d[i] == q[i])
                || exists|k: int| #[trigger] occurs_at(n, q, k))
        }),
{
    let q = lowercase(search);
    lemma_visible_rows_exact(procs, search);
    lemma_query_match_rule(lowercase(r.name@), r.pid, q);
    let j = choose|j: int| 0 <= j < procs.len() && procs[j] == r;
    if visible_rows(procs, search).contains(r) {
        let i = choose|i: int| 0 <= i < visible_rows(procs, search).len() && visible_rows(procs, search)[i] == r;
        assert(row_matches(r, q));
    }
    if row_matches(r, q) {
        assert(procs[j] == r);
    }
}

} // verus!
