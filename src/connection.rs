use vstd::prelude::*;

use crate::branch::{
    branch_set, clone_branches, union_branches, BranchKey, BranchKeyView, TimelineView,
};

verus! {

/// A realtime stream of a server that can be joined.
#[derive(Debug)]
pub enum ChannelChannel {
    HomeTimeline,
    LocalTimeline,
    Channel { channel_id: String },
}

/// One channel of a configured server, and the branches its notes belong to.
#[derive(Debug)]
pub struct Channel {
    pub channel: ChannelChannel,
    pub branches: Vec<BranchKey>,
}

/// A configured server: its host, the account used on it, the channels to join.
#[derive(Debug)]
pub struct Connection {
    pub host: String,
    pub user: String,
    pub channels: Vec<Channel>,
    pub disable: bool,
}

/// The secret token for a server, and whether it is switched off.
#[derive(Debug, Clone)]
pub struct Credential {
    pub host: String,
    pub api_key: String,
    pub disable: bool,
}

/// The timeline that joining a channel follows.
pub open spec fn timeline_of(c: ChannelChannel) -> TimelineView {
    match c {
        ChannelChannel::HomeTimeline => TimelineView::Home,
        ChannelChannel::LocalTimeline => TimelineView::Local,
        ChannelChannel::Channel { channel_id } => TimelineView::Channel(channel_id@),
    }
}

impl Clone for ChannelChannel {
    fn clone(&self) -> (r: ChannelChannel)
        ensures
            timeline_of(r) == timeline_of(*self),
    {
        match self {
            ChannelChannel::HomeTimeline => ChannelChannel::HomeTimeline,
            ChannelChannel::LocalTimeline => ChannelChannel::LocalTimeline,
            ChannelChannel::Channel { channel_id } => ChannelChannel::Channel {
                channel_id: channel_id.clone(),
            },
        }
    }
}

/// One of the first `n` channels follows `t`.
pub open spec fn listed_among(channels: Seq<Channel>, n: int, t: TimelineView) -> bool {
    exists|i: int| 0 <= i < n && timeline_of(channels[i].channel) == t
}

/// The branches of the first `n` channels that follow `t`, together.
pub open spec fn branches_of_channel(channels: Seq<Channel>, n: int, t: TimelineView) -> Set<
    BranchKeyView,
> {
    Set::new(
        |b: BranchKeyView|
            exists|i: int|
                0 <= i < n && timeline_of(channels[i].channel) == t && branch_set(
                    channels[i].branches@,
                ).contains(b),
    )
}

pub open spec fn planned(r: Seq<(ChannelChannel, Vec<BranchKey>)>, t: TimelineView) -> bool {
    exists|i: int| 0 <= i < r.len() && timeline_of(r[i].0) == t
}

proof fn lemma_branches_step(channels: Seq<Channel>, i: int, t: TimelineView)
    requires
        0 <= i < channels.len(),
    ensures
        branches_of_channel(channels, i + 1, t) == if timeline_of(channels[i].channel) == t {
            branches_of_channel(channels, i, t).union(branch_set(channels[i].branches@))
        } else {
            branches_of_channel(channels, i, t)
        },
{
    let next = branches_of_channel(channels, i + 1, t);
    let prev = branches_of_channel(channels, i, t);
    if timeline_of(channels[i].channel) == t {
        assert forall|b: BranchKeyView| next.contains(b) == prev.union(branch_set(channels[i].branches@)).contains(b) by {
            if next.contains(b) {
                let k = choose|k: int|
                    0 <= k < i + 1 && timeline_of(channels[k].channel) == t && branch_set(channels[k].branches@).contains(b);
                if k < i {
                    assert(prev.contains(b));
                }
            }
            if prev.contains(b) {
                let k = choose|k: int|
                    0 <= k < i && timeline_of(channels[k].channel) == t && branch_set(channels[k].branches@).contains(b);
                assert(next.contains(b));
            }
        }
        assert(next =~= prev.union(branch_set(channels[i].branches@)));
    } else {
        assert forall|b: BranchKeyView| next.contains(b) == prev.contains(b) by {
            if next.contains(b) {
                let k = choose|k: int|
                    0 <= k < i + 1 && timeline_of(channels[k].channel) == t && branch_set(channels[k].branches@).contains(b);
                assert(k < i);
            }
            if prev.contains(b) {
                let k = choose|k: int|
                    0 <= k < i && timeline_of(channels[k].channel) == t && branch_set(channels[k].branches@).contains(b);
                assert(next.contains(b));
            }
        }
        assert(next =~= prev);
    }
}

/// Whether two channels are the same stream.
pub fn same_channel(a: &ChannelChannel, b: &ChannelChannel) -> (r: bool)
    ensures
        r == (timeline_of(*a) == timeline_of(*b)),
{
    match (a, b) {
        (ChannelChannel::HomeTimeline, ChannelChannel::HomeTimeline) => true,
        (ChannelChannel::LocalTimeline, ChannelChannel::LocalTimeline) => true,
        (ChannelChannel::Channel { channel_id: x }, ChannelChannel::Channel { channel_id: y }) => *x == *y,
        _ => false,
    }
}

fn plan_index(r: &Vec<(ChannelChannel, Vec<BranchKey>)>, c: &ChannelChannel) -> (res: Option<usize>)
    ensures
        match res {
            Some(j) => j < r@.len() && timeline_of(r@[j as int].0) == timeline_of(*c),
            None => forall|k: int| 0 <= k < r@.len() ==> timeline_of(#[trigger] r@[k].0) != timeline_of(*c),
        },
{
    let mut j: usize = 0;
    while j < r.len()
        invariant
            j <= r@.len(),
            forall|k: int| 0 <= k < j ==> timeline_of(#[trigger] r@[k].0) != timeline_of(*c),
        decreases r@.len() - j,
    {
        if same_channel(&r[j].0, c) {
            return Some(j);
        }
        j = j + 1;
    }
    None
}

/// The channels to join on the server of `conn`: every configured channel,
/// each once, with the branches of all its entries together.
pub fn subscription_plan(conn: &Connection) -> (r: Vec<(ChannelChannel, Vec<BranchKey>)>)
    ensures
        forall|i: int|
            0 <= i < r@.len() ==> branch_set(r@[i].1@) == branches_of_channel(
                conn.channels@,
                conn.channels@.len() as int,
                timeline_of(#[trigger] r@[i].0),
            ),
        forall|i: int, j: int| 0 <= i < j < r@.len() ==> timeline_of(r@[i].0) != timeline_of(r@[j].0),
        forall|t: TimelineView|
            listed_among(conn.channels@, conn.channels@.len() as int, t) <==> #[trigger] planned(r@, t),
{
    let ghost chs = conn.channels@;
    let mut r: Vec<(ChannelChannel, Vec<BranchKey>)> = Vec::new();
    let mut i: usize = 0;
    while i < conn.channels.len()
        invariant
            i <= chs.len(),
            chs == conn.channels@,
            forall|k: int|
                0 <= k < r@.len() ==> branch_set(r@[k].1@) == branches_of_channel(
                    chs,
                    i as int,
                    timeline_of(#[trigger] r@[k].0),
                ),
            forall|k: int, j: int| 0 <= k < j < r@.len() ==> timeline_of(r@[k].0) != timeline_of(r@[j].0),
            forall|t: TimelineView| #[trigger] listed_among(chs, i as int, t) <==> planned(r@, t),
        decreases chs.len() - i,
    {
        let ch = &conn.channels[i];
        let ghost t = timeline_of(ch.channel);
        let ghost r0 = r@;
        let found = plan_index(&r, &ch.channel);
        proof {
            assert forall|u: TimelineView| true implies #[trigger] branches_of_channel(chs, i + 1, u) == (if t == u {
                branches_of_channel(chs, i as int, u).union(branch_set(chs[i as int].branches@))
            } else {
                branches_of_channel(chs, i as int, u)
            }) by {
                lemma_branches_step(chs, i as int, u);
            }
        }
        if let Some(j) = found {
            let mut merged = clone_branches(&r[j].1);
            union_branches(&mut merged, &ch.branches);
            let c = r[j].0.clone();
            r.set(j, (c, merged));
            proof {
                assert forall|k: int| 0 <= k < r@.len() implies branch_set(r@[k].1@) == branches_of_channel(
                    chs,
                    i + 1,
                    timeline_of(#[trigger] r@[k].0),
                ) by {
                    if k != j {
                        assert(r@[k] == r0[k]);
                    }
                }
                assert forall|k: int, l: int| 0 <= k < l < r@.len() implies timeline_of(r@[k].0) != timeline_of(r@[l].0) by {
                    assert(timeline_of(r@[k].0) == timeline_of(r0[k].0));
                    assert(timeline_of(r@[l].0) == timeline_of(r0[l].0));
                }
                assert forall|u: TimelineView| #[trigger] listed_among(chs, i + 1, u) <==> planned(r@, u) by {
                    if listed_among(chs, i + 1, u) && u != t {
                        let k = choose|k: int| 0 <= k < i + 1 && timeline_of(chs[k].channel) == u;
                        assert(listed_among(chs, i as int, u));
                    }
                    if listed_among(chs, i + 1, u) {
                        assert(timeline_of(r@[j as int].0) == t);
                        if u != t {
                            let k = choose|k: int| 0 <= k < r0.len() && timeline_of(r0[k].0) == u;
                            assert(timeline_of(r@[k].0) == u);
                        }
                    }
                    if planned(r@, u) {
                        let k = choose|k: int| 0 <= k < r@.len() && timeline_of(r@[k].0) == u;
                        assert(timeline_of(r0[k].0) == u);
                        assert(planned(r0, u));
                        assert(listed_among(chs, i as int, u));
                        let m = choose|m: int| 0 <= m < i && timeline_of(chs[m].channel) == u;
                        assert(listed_among(chs, i + 1, u));
                    }
                }
            }
        } else {
            proof {
                if listed_among(chs, i as int, t) {
                    assert(planned(r0, t));
                    let k = choose|k: int| 0 <= k < r0.len() && timeline_of(r0[k].0) == t;
                    assert(false);
                }
                assert(branches_of_channel(chs, i as int, t) =~= Set::<BranchKeyView>::empty()) by {
                    assert forall|b: BranchKeyView| !branches_of_channel(chs, i as int, t).contains(b) by {
                        if branches_of_channel(chs, i as int, t).contains(b) {
                            let k = choose|k: int|
                                0 <= k < i && timeline_of(chs[k].channel) == t && branch_set(chs[k].branches@).contains(b);
                            assert(listed_among(chs, i as int, t));
                        }
                    }
                }
            }
            let c = ch.channel.clone();
            let bs = clone_branches(&ch.branches);
            r.push((c, bs));
            proof {
                assert(branch_set(chs[i as int].branches@) =~= Set::<BranchKeyView>::empty().union(
                    branch_set(chs[i as int].branches@),
                ));
                assert forall|k: int| 0 <= k < r@.len() implies branch_set(r@[k].1@) == branches_of_channel(
                    chs,
                    i + 1,
                    timeline_of(#[trigger] r@[k].0),
                ) by {
                    if k < r0.len() {
                        assert(r@[k] == r0[k]);
                    }
                }
                assert forall|k: int, l: int| 0 <= k < l < r@.len() implies timeline_of(r@[k].0) != timeline_of(r@[l].0) by {
                    if l == r0.len() {
                        assert(r@[k] == r0[k]);
                    } else {
                        assert(r@[k] == r0[k] && r@[l] == r0[l]);
                    }
                }
                assert forall|u: TimelineView| #[trigger] listed_among(chs, i + 1, u) <==> planned(r@, u) by {
                    if listed_among(chs, i + 1, u) {
                        if u == t {
                            assert(timeline_of(r@[r0.len() as int].0) == u);
                        } else {
                            let k = choose|k: int| 0 <= k < i + 1 && timeline_of(chs[k].channel) == u;
                            assert(listed_among(chs, i as int, u));
                            let k2 = choose|k2: int| 0 <= k2 < r0.len() && timeline_of(r0[k2].0) == u;
                            assert(r@[k2] == r0[k2]);
                        }
                    }
                    if planned(r@, u) {
                        let k = choose|k: int| 0 <= k < r@.len() && timeline_of(r@[k].0) == u;
                        if k < r0.len() {
                            assert(r@[k] == r0[k]);
                            assert(planned(r0, u));
                            assert(listed_among(chs, i as int, u));
                            let m = choose|m: int| 0 <= m < i && timeline_of(chs[m].channel) == u;
                        }
                        assert(listed_among(chs, i + 1, u));
                    }
                }
            }
        }
        i = i + 1;
    }
    r
}

/// The first switched-on credential for the server `host`.
pub fn find_credential(credentials: &Vec<Credential>, host: &str) -> (r: Option<usize>)
    ensures
        match r {
            Some(i) => i < credentials@.len() && credentials@[i as int].host@ == host@
                && !credentials@[i as int].disable && forall|j: int|
                0 <= j < i ==> credentials@[j].host@ != host@ || credentials@[j].disable,
            None => forall|j: int|
                0 <= j < credentials@.len() ==> credentials@[j].host@ != host@ || credentials@[j].disable,
        },
{
    let target = host.to_string();
    let mut i: usize = 0;
    while i < credentials.len()
        invariant
            i <= credentials@.len(),
            target@ == host@,
            forall|j: int| 0 <= j < i ==> credentials@[j].host@ != host@ || credentials@[j].disable,
        decreases credentials@.len() - i,
    {
        if credentials[i].host == target && !credentials[i].disable {
            return Some(i);
        }
        i = i + 1;
    }
    None
}

} // verus!
