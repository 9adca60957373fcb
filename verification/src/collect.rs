//! The computing part of sampling: per-tick deltas, and the totals and
//! headlines of the network and disk samples. Reading the operating system
//! is left to the caller, which hands the raw readings in.
use crate::text::{
    as_double_exec, digit_char, human_text, push_char, push_decimal, push_unit_name,
    round_half_even_exec, unit_divisor_exec, unit_index_exec, whole_gb, whole_gigabytes,
};
use vstd::prelude::*;

verus! {

/// The per-tick delta of a counter: 0 on the first sample or on a reset,
/// else the growth since the previous sample.
pub open spec fn delta_step(prev: Option<u64>, cur: u64) -> nat {
    match prev {
        Some(p) => if cur >= p {
            (cur - p) as nat
        } else {
            0
        },
        None => 0,
    }
}

/// Sum of the deltas of successive readings `cs`, starting from no previous
/// reading.
pub open spec fn delta_total(cs: Seq<u64>) -> nat
    decreases cs.len(),
{
    if cs.len() <= 1 {
        0
    } else {
        delta_total(cs.drop_last()) + delta_step(Some(cs[cs.len() - 2]), cs.last())
    }
}

/// Saturating per-tick delta for cumulative counters.
/// Returns 0 on first sample (prev=None) or on counter reset (cur < prev).
pub fn delta(prev: &mut Option<u64>, cur: u64) -> (out: u64)
    ensures
        *final(prev) == Some(cur),
        out == delta_step(*old(prev), cur),
{
    let out = match *prev {
        Some(p) => cur.saturating_sub(p),
        None => 0,
    };
    *prev = Some(cur);
    out
}

/// Human-readable bytes (B/KB/MB/GB).
pub fn human(bytes: u64) -> (s: String)
    ensures
        s@ == human_text(bytes as nat),
{
    let v = as_double_exec(bytes);
    let i = unit_index_exec(bytes);
    let d = unit_divisor_exec(i);
    assert(((v * 10) as int / (d as int)) < u128::MAX) by (nonlinear_arith)
        requires
            v <= 0x1_0000_0000_0000_0000,
            d >= 1,
    ;
    let t = round_half_even_exec(v * 10, d);
    let mut s = String::new();
    push_decimal(&mut s, t / 10);
    push_char(&mut s, '.');
    let c = digit_char(t % 10);
    push_char(&mut s, c);
    push_char(&mut s, ' ');
    push_unit_name(&mut s, i);
    assert(s@ =~= human_text(bytes as nat));
    s
}

/// Sum of the first components of the readings.
pub open spec fn sum_first(rs: Seq<(u64, u64)>) -> nat
    decreases rs.len(),
{
    if rs.len() == 0 {
        0
    } else {
        sum_first(rs.drop_last()) + rs.last().0 as nat
    }
}

/// Sum of the second components of the readings.
pub open spec fn sum_second(rs: Seq<(u64, u64)>) -> nat
    decreases rs.len(),
{
    if rs.len() == 0 {
        0
    } else {
        sum_second(rs.drop_last()) + rs.last().1 as nat
    }
}

/// The headline of the network graph: `"↓ <in>/s   ↑ <out>/s"`.
pub open spec fn net_headline(rx: nat, tx: nat) -> Seq<char> {
    seq!['\u{2193}', ' '] + human_text(rx) + seq!['/', 's', ' ', ' ', ' ', '\u{2191}', ' '] + human_text(tx)
        + seq!['/', 's']
}

/// One network sample.
pub struct NetSample {
    /// Bytes received in this tick, over all interfaces.
    pub rx: u64,
    /// Bytes sent in this tick, over all interfaces.
    pub tx: u64,
    /// The value graphed: received plus sent.
    pub total: u64,
    pub headline: String,
}

fn push_str(s: &mut String, lit: &str)
    ensures
        final(s)@ == old(s)@ + lit@,
{
    s.append(lit);
}

fn push_human(s: &mut String, b: u64)
    ensures
        final(s)@ == old(s)@ + human_text(b as nat),
{
    let h = human(b);
    push_str(s, h.as_str());
}

/// Totals and headline of a network sample, from the (received, sent)
/// bytes of each interface in this tick.
pub fn net_sample(readings: &Vec<(u64, u64)>) -> (s: NetSample)
    requires
        sum_first(readings@) + sum_second(readings@) <= u64::MAX,
    ensures
        s.rx == sum_first(readings@),
        s.tx == sum_second(readings@),
        s.total == s.rx + s.tx,
        s.headline@ == net_headline(s.rx as nat, s.tx as nat),
{
    let n = readings.len();
    let mut rx: u64 = 0;
    let mut tx: u64 = 0;
    let mut i: usize = 0;
    assert(readings@.take(0) =~= Seq::<(u64, u64)>::empty());
    while i < n
        invariant
            n == readings@.len(),
            i <= n,
            rx == sum_first(readings@.take(i as int)),
            tx == sum_second(readings@.take(i as int)),
            sum_first(readings@) + sum_second(readings@) <= u64::MAX,
        decreases n - i,
    {
        proof {
            lemma_sums_prefix(readings@, (i + 1) as nat);
            assert(readings@.take(i + 1).drop_last() =~= readings@.take(i as int));
        }
        rx = rx + readings[i].0;
        tx = tx + readings[i].1;
        i = i + 1;
    }
    assert(readings@.take(n as int) =~= readings@);
    let mut headline = String::new();
    push_char_seq_down(&mut headline);
    push_human(&mut headline, rx);
    push_str(&mut headline, "/s   ");
    push_char(&mut headline, '\u{2191}');
    push_char(&mut headline, ' ');
    push_human(&mut headline, tx);
    push_str(&mut headline, "/s");
    proof {
        reveal_strlit("/s   ");
        reveal_strlit("/s");
    }
    assert(headline@ =~= net_headline(rx as nat, tx as nat));
    NetSample { rx, tx, total: rx + tx, headline }
}

fn push_char_seq_down(s: &mut String)
    ensures
        final(s)@ == old(s)@ + seq!['\u{2193}', ' '],
{
    push_char(s, '\u{2193}');
    push_char(s, ' ');
    assert(final(s)@ =~= old(s)@ + seq!['\u{2193}', ' ']);
}

/// Prefix sums never exceed the whole sums.
proof fn lemma_sums_prefix(rs: Seq<(u64, u64)>, k: nat)
    requires
        k <= rs.len(),
    ensures
        sum_first(rs.take(k as int)) <= sum_first(rs),
        sum_second(rs.take(k as int)) <= sum_second(rs),
    decreases rs.len() - k,
{
    if k < rs.len() {
        lemma_sums_prefix(rs, k + 1);
        assert(rs.take(k as int + 1).drop_last() =~= rs.take(k as int));
    } else {
        assert(rs.take(k as int) =~= rs);
    }
}

/// What one disk reports in a tick.
#[derive(Clone, Copy, Debug)]
pub struct DiskReading {
    pub read_bytes: u64,
    pub written_bytes: u64,
    pub total_space: u64,
    pub available_space: u64,
}

/// Space in use on a disk: total less available, 0 if available exceeds
/// total.
pub open spec fn used_space(d: DiskReading) -> nat {
    if d.total_space >= d.available_space {
        (d.total_space - d.available_space) as nat
    } else {
        0
    }
}

/// Sums over all disks: (read, written, used, total).
pub open spec fn disk_sums(ds: Seq<DiskReading>) -> (nat, nat, nat, nat)
    decreases ds.len(),
{
    if ds.len() == 0 {
        (0, 0, 0, 0)
    } else {
        let (r, w, u, t) = disk_sums(ds.drop_last());
        let d = ds.last();
        (r + d.read_bytes as nat, w + d.written_bytes as nat, u + used_space(d), t + d.total_space as nat)
    }
}

/// The headline of the disk graph:
/// `"R <read>/s  W <written>/s   <used>/<total> GB used"`, the sizes in whole
/// GB.
pub open spec fn disk_headline(r: nat, w: nat, used: nat, total: nat) -> Seq<char> {
    seq!['R', ' '] + human_text(r) + "/s  W "@ + human_text(w) + "/s   "@ + crate::text::decimal(
        whole_gb(used),
    ) + seq!['/'] + crate::text::decimal(whole_gb(total)) + " GB used"@
}

/// One disk sample.
pub struct DiskSample {
    pub read: u64,
    pub written: u64,
    pub used: u64,
    pub total: u64,
    /// The value graphed: bytes read plus bytes written.
    pub value: u64,
    pub headline: String,
}

proof fn lemma_disk_sums_prefix(ds: Seq<DiskReading>, k: nat)
    requires
        k <= ds.len(),
    ensures
        disk_sums(ds.take(k as int)).0 <= disk_sums(ds).0,
        disk_sums(ds.take(k as int)).1 <= disk_sums(ds).1,
        disk_sums(ds.take(k as int)).2 <= disk_sums(ds).2,
        disk_sums(ds.take(k as int)).3 <= disk_sums(ds).3,
    decreases ds.len() - k,
{
    if k < ds.len() {
        lemma_disk_sums_prefix(ds, k + 1);
        assert(ds.take(k as int + 1).drop_last() =~= ds.take(k as int));
    } else {
        assert(ds.take(k as int) =~= ds);
    }
}

/// Totals and headline of a disk sample, from what each disk reports.
pub fn disk_sample(disks: &Vec<DiskReading>) -> (s: DiskSample)
    requires
        disk_sums(disks@).0 + disk_sums(disks@).1 <= u64::MAX,
        disk_sums(disks@).2 <= u64::MAX,
        disk_sums(disks@).3 <= u64::MAX,
    ensures
        (s.read as nat, s.written as nat, s.used as nat, s.total as nat) == disk_sums(disks@),
        s.value == s.read + s.written,
        s.headline@ == disk_headline(s.read as nat, s.written as nat, s.used as nat, s.total as nat),
{
    let n = disks.len();
    let mut r: u64 = 0;
    let mut w: u64 = 0;
    let mut used: u64 = 0;
    let mut total: u64 = 0;
    let mut i: usize = 0;
    assert(disks@.take(0) =~= Seq::<DiskReading>::empty());
    while i < n
        invariant
            n == disks@.len(),
            i <= n,
            (r as nat, w as nat, used as nat, total as nat) == disk_sums(disks@.take(i as int)),
            disk_sums(disks@).0 + disk_sums(disks@).1 <= u64::MAX,
            disk_sums(disks@).2 <= u64::MAX,
            disk_sums(disks@).3 <= u64::MAX,
        decreases n - i,
    {
        proof {
            lemma_disk_sums_prefix(disks@, (i + 1) as nat);
            assert(disks@.take(i + 1).drop_last() =~= disks@.take(i as int));
        }
        let d = disks[i];
        r = r + d.read_bytes;
        w = w + d.written_bytes;
        total = total + d.total_space;
        used = used + d.total_space.saturating_sub(d.available_space);
        i = i + 1;
    }
    assert(disks@.take(n as int) =~= disks@);
    let mut headline = String::new();
    push_char(&mut headline, 'R');
    push_char(&mut headline, ' ');
    push_human(&mut headline, r);
    push_str(&mut headline, "/s  W ");
    push_human(&mut headline, w);
    push_str(&mut headline, "/s   ");
    push_decimal(&mut headline, whole_gigabytes(used));
    push_char(&mut headline, '/');
    push_decimal(&mut headline, whole_gigabytes(total));
    push_str(&mut headline, " GB used");
    assert(headline@ =~= disk_headline(r as nat, w as nat, used as nat, total as nat));
    DiskSample { read: r, written: w, used, total, value: r + w, headline }
}

/// The deltas of a counter that never goes down add up to its growth: the
/// last reading less the first.
pub proof fn lemma_deltas_telescope(cs: Seq<u64>)
    requires
        cs.len() >= 1,
        forall|i: int, j: int| 0 <= i <= j < cs.len() ==> cs[i] <= cs[j],
    ensures
        delta_total(cs) == cs.last() - cs[0],
    decreases cs.len(),
{
    if cs.len() > 1 {
        let prev = cs.drop_last();
        assert forall|i: int, j: int| 0 <= i <= j < prev.len() implies prev[i] <= prev[j] by {
            assert(prev[i] == cs[i] && prev[j] == cs[j]);
        }
        lemma_deltas_telescope(prev);
        assert(cs[cs.len() - 2] <= cs.last());
    }
}

} // verus!
