//! A single tracked metric: capped history of one or two u64 series, a graph
//! title, and a list of (label, value) stats for the side panels.
use std::collections::VecDeque;
use vstd::prelude::*;

verus! {

/// Number of samples kept per series.
pub const HISTORY: usize = 1024;

/// The history after one sample `v` is pushed onto `s`: the oldest sample
/// is dropped first when the history is already full.
pub open spec fn capped_push(s: Seq<u64>, v: u64) -> Seq<u64> {
    if s.len() == HISTORY {
        s.drop_first().push(v)
    } else {
        s.push(v)
    }
}

/// The history after pushing every sample of `vs`, in order.
pub open spec fn push_all(s: Seq<u64>, vs: Seq<u64>) -> Seq<u64>
    decreases vs.len(),
{
    if vs.len() == 0 {
        s
    } else {
        capped_push(push_all(s, vs.drop_last()), vs.last())
    }
}

/// The newest `n` elements of `s` (all of them when `s` is shorter).
pub open spec fn newest(s: Seq<u64>, n: nat) -> Seq<u64> {
    if s.len() <= n {
        s
    } else {
        s.subrange(s.len() - n, s.len() as int)
    }
}

pub struct Metric {
    /// The primary series, oldest first (read it with `primary()`).
    pub primary: VecDeque<u64>,
    /// The secondary series, oldest first (read it with `secondary()`).
    pub secondary: VecDeque<u64>,
    /// True once a secondary series has been pushed (net/disk in-vs-out).
    pub dual: bool,
    pub title: String,
    pub stats: Vec<(String, String)>,
}

impl Metric {
    /// The primary series, oldest first.
    pub open spec fn primary_seq(&self) -> Seq<u64> {
        self.primary@
    }

    /// The secondary series, oldest first.
    pub open spec fn secondary_seq(&self) -> Seq<u64> {
        self.secondary@
    }

    /// Whether a secondary series has ever been pushed.
    pub open spec fn is_dual(&self) -> bool {
        self.dual
    }

    /// The headline title.
    pub open spec fn title_seq(&self) -> Seq<char> {
        self.title@
    }

    /// The (label, value) stats for the side panels.
    pub open spec fn stats_seq(&self) -> Seq<(String, String)> {
        self.stats@
    }

    /// Both series hold at most `HISTORY` samples.
    pub open spec fn bounded(&self) -> bool {
        &&& self.primary_seq().len() <= HISTORY
        &&& self.secondary_seq().len() <= HISTORY
    }

    /// Both series hold at most `HISTORY` samples, and the secondary one is
    /// empty exactly when no secondary sample was pushed (`dual` unset).
    pub open spec fn wf(&self) -> bool {
        &&& self.bounded()
        &&& (self.secondary_seq().len() == 0 <==> !self.is_dual())
    }

    pub fn new() -> (m: Self)
        ensures
            m.wf(),
            m.primary_seq() == Seq::<u64>::empty(),
            m.secondary_seq() == Seq::<u64>::empty(),
            !m.is_dual(),
            m.title_seq() == Seq::<char>::empty(),
            m.stats_seq() == Seq::<(String, String)>::empty(),
    {
        Metric {
            primary: VecDeque::new(),
            secondary: VecDeque::new(),
            dual: false,
            title: String::new(),
            stats: Vec::new(),
        }
    }

    fn push_capped(buf: &mut VecDeque<u64>, v: u64)
        requires
            old(buf)@.len() <= HISTORY,
        ensures
            final(buf)@ == capped_push(old(buf)@, v),
            final(buf)@.len() <= HISTORY,
    {
        if buf.len() == HISTORY {
            buf.pop_front();
        }
        buf.push_back(v);
    }

    /// Push a new sample. `secondary` present => dual mirrored graph.
    pub fn update(
        &mut self,
        primary: u64,
        secondary: Option<u64>,
        title: &str,
        stats: Vec<(String, String)>,
    )
        requires
            old(self).bounded(),
        ensures
            final(self).bounded(),
            old(self).wf() ==> final(self).wf(),
            final(self).primary_seq() == capped_push(old(self).primary_seq(), primary),
            final(self).secondary_seq() == match secondary {
                Some(s) => capped_push(old(self).secondary_seq(), s),
                None => old(self).secondary_seq(),
            },
            final(self).is_dual() == (old(self).is_dual() || secondary is Some),
            final(self).title_seq() == title@,
            final(self).stats_seq() == stats@,
    {
        Self::push_capped(&mut self.primary, primary);
        if let Some(s) = secondary {
            self.dual = true;
            Self::push_capped(&mut self.secondary, s);
        }
        self.title = String::from_str(title);
        self.stats = stats;
    }

    /// Push one sample of the primary series and the headline shown as the
    /// title; the secondary series and the stats stay as they were.
    pub fn push(&mut self, value: u64, headline: String)
        requires
            old(self).bounded(),
        ensures
            final(self).bounded(),
            old(self).wf() ==> final(self).wf(),
            final(self).primary_seq() == capped_push(old(self).primary_seq(), value),
            final(self).secondary_seq() == old(self).secondary_seq(),
            final(self).is_dual() == old(self).is_dual(),
            final(self).title_seq() == headline@,
            final(self).stats_seq() == old(self).stats_seq(),
    {
        Self::push_capped(&mut self.primary, value);
        self.title = headline;
    }

    /// The primary series, oldest first.
    pub fn primary(&self) -> (v: Vec<u64>)
        ensures
            v@ == self.primary_seq(),
    {
        copy_deque(&self.primary)
    }

    /// The secondary series, oldest first.
    pub fn secondary(&self) -> (v: Vec<u64>)
        ensures
            v@ == self.secondary_seq(),
    {
        copy_deque(&self.secondary)
    }
}

fn copy_deque(d: &VecDeque<u64>) -> (v: Vec<u64>)
    ensures
        v@ == d@,
{
    let n = d.len();
    let mut v: Vec<u64> = Vec::new();
    let mut i: usize = 0;
    while i < n
        invariant
            n == d@.len(),
            i <= n,
            v@ == d@.take(i as int),
        decreases n - i,
    {
        v.push(d[i]);
        i = i + 1;
        assert(v@ =~= d@.take(i as int));
    }
    assert(d@.take(n as int) =~= d@);
    v
}

/// Pushing samples one by one never grows a history beyond `HISTORY`, and
/// what is kept is exactly the newest `HISTORY` samples ever pushed: the
/// oldest ones are the ones dropped.
pub proof fn lemma_history_keeps_newest(s: Seq<u64>, vs: Seq<u64>)
    requires
        s.len() <= HISTORY,
    ensures
        push_all(s, vs) == newest(s + vs, HISTORY as nat),
        push_all(s, vs).len() <= HISTORY,
    decreases vs.len(),
{
    if vs.len() > 0 {
        let prev = vs.drop_last();
        lemma_history_keeps_newest(s, prev);
        let h = push_all(s, prev);
        let all_prev = s + prev;
        let all = s + vs;
        assert(all =~= all_prev.push(vs.last()));
        if all_prev.len() <= HISTORY {
            assert(h == all_prev);
        } else {
            assert(h.len() == HISTORY);
        }
        assert(push_all(s, vs) =~= newest(all, HISTORY as nat));
    }
}

/// A metric fed `vs` from new holds the newest `HISTORY` of them, oldest
/// first.
pub proof fn lemma_history_from_new(vs: Seq<u64>)
    ensures
        push_all(Seq::empty(), vs) == newest(vs, HISTORY as nat),
{
    lemma_history_keeps_newest(Seq::empty(), vs);
    assert(Seq::<u64>::empty() + vs =~= vs);
}

} // verus!
