use vstd::prelude::*;

verus! {

// The decisions of a walk of a mutator tree over a target tree, made on the channels
// of sibling nodes: which mutator node goes with which target node. A mutation only
// ever passes between nodes on the same channel, and only from the children of a
// mutator to the children of the target it was applied with.

/// The pairs `(j, i)` of target `j` among the first `upto` targets whose channel is
/// `channel`, each with mutator `i`, in the targets' order.
pub open spec fn matches_of(targets: Seq<usize>, channel: usize, i: int, upto: int) -> Seq<(usize, usize)>
    decreases upto,
{
    if upto <= 0 {
        Seq::empty()
    } else if targets[upto - 1] == channel {
        matches_of(targets, channel, i, upto - 1).push(((upto - 1) as usize, i as usize))
    } else {
        matches_of(targets, channel, i, upto - 1)
    }
}

/// The pairs for the first `k` mutators: each in turn with every target of its
/// channel.
pub open spec fn aligned_upto(targets: Seq<usize>, mutators: Seq<usize>, k: int) -> Seq<(usize, usize)>
    decreases k,
{
    if k <= 0 {
        Seq::empty()
    } else {
        aligned_upto(targets, mutators, k - 1) + matches_of(targets, mutators[k - 1], k - 1, targets.len() as int)
    }
}

/// How the children of a mutator node and of a target node are walked together, given
/// their channels: each mutator child, in order, with every target child on its
/// channel, in order, as `(target, mutator)` index pairs. A target that shares its
/// channel with several mutators is walked with each of them.
pub open spec fn aligned_pairs(targets: Seq<usize>, mutators: Seq<usize>) -> Seq<(usize, usize)> {
    aligned_upto(targets, mutators, mutators.len() as int)
}

proof fn lemma_matches_on_channel(targets: Seq<usize>, channel: usize, i: int, upto: int)
    requires
        0 <= upto <= targets.len() <= usize::MAX,
        0 <= i <= usize::MAX,
    ensures
        forall|k: int| 0 <= k < matches_of(targets, channel, i, upto).len() ==> {
            let p = #[trigger] matches_of(targets, channel, i, upto)[k];
            &&& p.0 < upto
            &&& targets[p.0 as int] == channel
            &&& p.1 == i
        },
    decreases upto,
{
    if upto > 0 {
        lemma_matches_on_channel(targets, channel, i, upto - 1);
        let rest = matches_of(targets, channel, i, upto - 1);
        let all = matches_of(targets, channel, i, upto);
        assert forall|k: int| 0 <= k < all.len() implies {
            let p = #[trigger] all[k];
            &&& p.0 < upto
            &&& targets[p.0 as int] == channel
            &&& p.1 == i
        } by {
            if k < rest.len() {
                assert(all[k] == rest[k]);
            }
        }
    }
}

proof fn lemma_aligned_on_channel(targets: Seq<usize>, mutators: Seq<usize>, k: int)
    requires
        0 <= k <= mutators.len() <= usize::MAX,
        targets.len() <= usize::MAX,
    ensures
        forall|n: int| 0 <= n < aligned_upto(targets, mutators, k).len() ==> {
            let p = #[trigger] aligned_upto(targets, mutators, k)[n];
            &&& p.0 < targets.len()
            &&& p.1 < k
            &&& targets[p.0 as int] == mutators[p.1 as int]
        },
    decreases k,
{
    if k > 0 {
        lemma_aligned_on_channel(targets, mutators, k - 1);
        lemma_matches_on_channel(targets, mutators[k - 1], k - 1, targets.len() as int);
        let a = aligned_upto(targets, mutators, k - 1);
        let b = matches_of(targets, mutators[k - 1], k - 1, targets.len() as int);
        assert forall|n: int| 0 <= n < (a + b).len() implies {
            let p = #[trigger] (a + b)[n];
            &&& p.0 < targets.len()
            &&& p.1 < k
            &&& targets[p.0 as int] == mutators[p.1 as int]
        } by {
            if n >= a.len() {
                assert((a + b)[n] == b[n - a.len()]);
            }
        }
    }
}

/// Pairs the children of a mutator node with those of a target node, given their
/// channels (see [aligned_pairs]): the walk goes on from each pair, and every pair is
/// on one channel.
pub fn align_children(targets: &Vec<usize>, mutators: &Vec<usize>) -> (pairs: Vec<(usize, usize)>)
    ensures
        pairs@ == aligned_pairs(targets@, mutators@),
        forall|n: int| 0 <= n < pairs.len() ==> {
            let p = #[trigger] pairs@[n];
            &&& p.0 < targets.len()
            &&& p.1 < mutators.len()
            &&& targets@[p.0 as int] == mutators@[p.1 as int]
        },
{
    let mut pairs: Vec<(usize, usize)> = Vec::new();
    let mut i: usize = 0;
    while i < mutators.len()
        invariant
            i <= mutators.len(),
            pairs@ == aligned_upto(targets@, mutators@, i as int),
        decreases mutators.len() - i,
    {
        let channel = mutators[i];
        let mut j: usize = 0;
        while j < targets.len()
            invariant
                i < mutators.len(),
                channel == mutators@[i as int],
                j <= targets.len(),
                pairs@ == aligned_upto(targets@, mutators@, i as int) + matches_of(targets@, channel, i as int, j as int),
            decreases targets.len() - j,
        {
            if targets[j] == channel {
                pairs.push((j, i));
            }
            j += 1;
        }
        i += 1;
    }
    proof {
        assert(targets@.len() == targets.len() && mutators@.len() == mutators.len());
        lemma_aligned_on_channel(targets@, mutators@, mutators.len() as int);
    }
    pairs
}

/// The pairs `(target, mutator)` on which a conditional repeat starts, from target
/// sibling `t` and mutator sibling `m` on: where their channels match, the repeat
/// starts on them; while the mutator's channel is not below the target's, the next
/// target is tried with the same mutator; otherwise both move on, as long as both have
/// a next sibling.
pub open spec fn repeat_while_starts(targets: Seq<usize>, mutators: Seq<usize>, t: int, m: int) -> Seq<(usize, usize)>
    decreases targets.len() - t,
{
    if t < 0 || m < 0 || t >= targets.len() || m >= mutators.len() {
        Seq::empty()
    } else {
        let here: Seq<(usize, usize)> = if mutators[m] == targets[t] {
            seq![(t as usize, m as usize)]
        } else {
            Seq::empty()
        };
        if mutators[m] >= targets[t] && t + 1 < targets.len() {
            here + repeat_while_starts(targets, mutators, t + 1, m)
        } else if m + 1 < mutators.len() && t + 1 < targets.len() {
            here + repeat_while_starts(targets, mutators, t + 1, m + 1)
        } else {
            here
        }
    }
}

/// Where a conditional repeat starts among the children of an instruction's target
/// and mutator, given their channels (see [repeat_while_starts]).
pub fn repeat_while_pairs(targets: &Vec<usize>, mutators: &Vec<usize>) -> (pairs: Vec<(usize, usize)>)
    ensures
        pairs@ == repeat_while_starts(targets@, mutators@, 0, 0),
{
    let mut pairs: Vec<(usize, usize)> = Vec::new();
    let mut t: usize = 0;
    let mut m: usize = 0;
    let mut done = false;
    while !done
        invariant
            t <= targets.len(),
            repeat_while_starts(targets@, mutators@, 0, 0) == pairs@ + if done {
                Seq::empty()
            } else {
                repeat_while_starts(targets@, mutators@, t as int, m as int)
            },
        decreases 2 * (targets.len() - t) + if done { 0int } else { 1int },
    {
        if t >= targets.len() || m >= mutators.len() {
            done = true;
            assert(pairs@ + Seq::<(usize, usize)>::empty() =~= pairs@);
        } else {
            let ghost rest = repeat_while_starts(targets@, mutators@, t as int, m as int);
            let ghost before = pairs@;
            if mutators[m] == targets[t] {
                pairs.push((t, m));
            }
            if mutators[m] >= targets[t] && t + 1 < targets.len() {
                t += 1;
                assert(before + rest =~= pairs@ + repeat_while_starts(targets@, mutators@, t as int, m as int));
            } else if m + 1 < mutators.len() && t + 1 < targets.len() {
                t += 1;
                m += 1;
                assert(before + rest =~= pairs@ + repeat_while_starts(targets@, mutators@, t as int, m as int));
            } else {
                done = true;
                assert(before + rest =~= pairs@ + Seq::<(usize, usize)>::empty());
            }
        }
    }
    pairs
}

/// The mutator children, from `i` on, with which a walk resumes on a target of
/// channel `channel` when a conditional repeat stops there: those on its channel, up
/// to the first one on a higher channel.
pub open spec fn resumed_from(mutators: Seq<usize>, channel: usize, i: int) -> Seq<usize>
    decreases mutators.len() - i,
{
    if i < 0 || i >= mutators.len() || mutators[i] > channel {
        Seq::empty()
    } else if mutators[i] == channel {
        seq![i as usize] + resumed_from(mutators, channel, i + 1)
    } else {
        resumed_from(mutators, channel, i + 1)
    }
}

/// When a conditional repeat stops at a target of channel `channel`, the walk
/// resumes on it with these children of the mutator (see [resumed_from]), in order.
pub fn resumed_mutators(mutators: &Vec<usize>, channel: usize) -> (resumed: Vec<usize>)
    ensures
        resumed@ == resumed_from(mutators@, channel, 0),
{
    let mut resumed: Vec<usize> = Vec::new();
    let mut i: usize = 0;
    while i < mutators.len()
        invariant
            i <= mutators.len(),
            resumed_from(mutators@, channel, 0) == resumed@ + resumed_from(mutators@, channel, i as int),
        decreases mutators.len() - i,
    {
        if mutators[i] > channel {
            assert(resumed_from(mutators@, channel, i as int) =~= Seq::<usize>::empty());
            assert(resumed@ + Seq::<usize>::empty() =~= resumed@);
            return resumed;
        }
        let ghost before = resumed@;
        if mutators[i] == channel {
            resumed.push(i);
            assert(before + resumed_from(mutators@, channel, i as int) =~= resumed@ + resumed_from(
                mutators@,
                channel,
                i + 1,
            ));
        }
        i += 1;
    }
    assert(resumed@ + Seq::<usize>::empty() =~= resumed@);
    resumed
}

/// What a tree of channels holds: the channel of each node, the children of each node
/// in order, and whether the walk stops at the node (an instruction node, which runs
/// its own conditional repeat instead).
pub type TreeView = (Seq<usize>, Seq<Seq<usize>>, Seq<bool>);

/// A tree of nodes that carry channels, its nodes numbered so that children come
/// after their parent.
pub struct ChannelTree {
    pub channel: Vec<usize>,
    pub children: Vec<Vec<usize>>,
    pub stops: Vec<bool>,
}

impl View for ChannelTree {
    type V = TreeView;

    open spec fn view(&self) -> TreeView {
        (self.channel@, self.children@.map_values(|c: Vec<usize>| c@), self.stops@)
    }
}

/// Whether `tr` is a tree: a channel, a list of children and a stop flag for each
/// node, and every child numbered after its parent.
pub open spec fn tree_wf(tr: TreeView) -> bool {
    &&& tr.0.len() <= usize::MAX
    &&& tr.1.len() == tr.0.len()
    &&& tr.2.len() == tr.0.len()
    &&& forall|i: int| 0 <= i < tr.1.len() ==> (#[trigger] tr.1[i]).len() <= usize::MAX
    &&& forall|i: int, j: int| 0 <= i < tr.1.len() && 0 <= j < tr.1[i].len() ==> i < #[trigger] tr.1[i][j] < tr.0.len()
}

impl ChannelTree {
    pub open spec fn wf(&self) -> bool {
        tree_wf(self@)
    }
}

/// The channels of the children of `node`, in order.
pub open spec fn child_channels(tr: TreeView, node: int) -> Seq<usize> {
    Seq::new(tr.1[node].len(), |j: int| tr.0[tr.1[node][j] as int])
}

/// The walk of mutator tree `mt` over target tree `tt` from target node `t` and
/// mutator node `m`: the pairs `(target, mutator)` it visits, in order. It visits
/// `(t, m)`; unless the walk stops at `m`, it then walks on from each pair of their
/// children that [aligned_pairs] gives, one after the other.
pub open spec fn walk_pairs(tt: TreeView, mt: TreeView, t: int, m: int) -> Seq<(usize, usize)>
    decreases mt.0.len() - m, 1int, 0int,
{
    if t < 0 || m < 0 || t >= tt.0.len() || m >= mt.0.len() {
        Seq::empty()
    } else if mt.2[m] {
        seq![(t as usize, m as usize)]
    } else {
        seq![(t as usize, m as usize)] + walk_children(
            tt,
            mt,
            t,
            m,
            aligned_pairs(child_channels(tt, t), child_channels(mt, m)),
            0,
        )
    }
}

/// The walks from the pairs of children `pairs[i..]` of `t` and `m`, one after the
/// other.
pub open spec fn walk_children(
    tt: TreeView,
    mt: TreeView,
    t: int,
    m: int,
    pairs: Seq<(usize, usize)>,
    i: int,
) -> Seq<(usize, usize)>
    decreases mt.0.len() - m, 0int, pairs.len() - i,
{
    if i < 0 || i >= pairs.len() || m < 0 || t < 0 || t >= tt.1.len() || m >= mt.1.len() {
        Seq::empty()
    } else {
        let tc = tt.1[t][pairs[i].0 as int] as int;
        let mc = mt.1[m][pairs[i].1 as int] as int;
        let first = if m < mc < mt.0.len() {
            walk_pairs(tt, mt, tc, mc)
        } else {
            Seq::empty()
        };
        first + walk_children(tt, mt, t, m, pairs, i + 1)
    }
}

/// Whether `child` is one of the children of `parent`.
pub open spec fn is_child(tr: TreeView, parent: int, child: int) -> bool {
    exists|j: int| 0 <= j < tr.1[parent].len() && tr.1[parent][j] == child
}

/// Whether the pair `plan[k]` has its parent pair earlier in `plan`: a pair `plan[j]`,
/// `j < k`, of whose nodes those of `plan[k]` are children.
pub open spec fn parent_walked(tt: TreeView, mt: TreeView, plan: Seq<(usize, usize)>, k: int) -> bool {
    exists|j: int|
        #![trigger plan[j]]
        0 <= j < k && is_child(tt, plan[j].0 as int, plan[k].0 as int) && is_child(mt, plan[j].1 as int, plan[k].1 as int)
}

/// The channel law of a walk from `(t, m)`: it starts at `(t, m)`, and every later pair
/// is on one channel and is a pair of children of a pair walked before it, so that a
/// mutation passes only between nodes whose channels and places in their trees match.
pub open spec fn channel_paths_match(tt: TreeView, mt: TreeView, t: int, m: int, plan: Seq<(usize, usize)>) -> bool {
    &&& plan.len() > 0
    &&& plan[0] == (t as usize, m as usize)
    &&& forall|k: int|
        #![trigger plan[k]]
        1 <= k < plan.len() ==> tt.0[plan[k].0 as int] == mt.0[plan[k].1 as int] && parent_walked(tt, mt, plan, k)
}

/// Every pair of a walk over children of `t` and `m` is on one channel, and is either a
/// pair of children of `t` and `m` or has its parent pair earlier in the walk.
pub open spec fn children_walk_ok(tt: TreeView, mt: TreeView, t: int, m: int, w: Seq<(usize, usize)>) -> bool {
    forall|k: int|
        #![trigger w[k]]
        0 <= k < w.len() ==> tt.0[w[k].0 as int] == mt.0[w[k].1 as int] && ((is_child(tt, t, w[k].0 as int) && is_child(
            mt,
            m,
            w[k].1 as int,
        )) || parent_walked(tt, mt, w, k))
}

proof fn lemma_walk_law(tt: TreeView, mt: TreeView, t: int, m: int)
    requires
        tree_wf(tt),
        tree_wf(mt),
        0 <= t < tt.0.len(),
        0 <= m < mt.0.len(),
    ensures
        channel_paths_match(tt, mt, t, m, walk_pairs(tt, mt, t, m)),
    decreases mt.0.len() - m, 1int, 0int,
{
    let p = walk_pairs(tt, mt, t, m);
    if !mt.2[m] {
        let tch = child_channels(tt, t);
        let mch = child_channels(mt, m);
        let pairs = aligned_pairs(tch, mch);
        lemma_aligned_on_channel(tch, mch, mch.len() as int);
        let w = walk_children(tt, mt, t, m, pairs, 0);
        lemma_children_law(tt, mt, t, m, pairs, 0);
        assert(p == seq![(t as usize, m as usize)] + w);
        assert(p[0] == (t as usize, m as usize));
        assert forall|k: int|
            #![trigger p[k]]
            1 <= k < p.len() implies tt.0[p[k].0 as int] == mt.0[p[k].1 as int] && parent_walked(tt, mt, p, k) by {
            assert(p[k] == w[k - 1]);
            if is_child(tt, t, w[k - 1].0 as int) && is_child(mt, m, w[k - 1].1 as int) {
                assert(p[0] == (t as usize, m as usize));
                assert(0 <= 0 < k && is_child(tt, p[0].0 as int, p[k].0 as int) && is_child(mt, p[0].1 as int, p[k].1 as int));
            } else {
                assert(parent_walked(tt, mt, w, k - 1));
                let j = choose|j: int|
                    #![trigger w[j]]
                    0 <= j < k - 1 && is_child(tt, w[j].0 as int, w[k - 1].0 as int) && is_child(
                        mt,
                        w[j].1 as int,
                        w[k - 1].1 as int,
                    );
                assert(p[j + 1] == w[j]);
                assert(0 <= j + 1 < k && is_child(tt, p[j + 1].0 as int, p[k].0 as int) && is_child(mt, p[j + 1].1 as int, p[k].1 as int));
            }
        }
    }
}

proof fn lemma_children_law(tt: TreeView, mt: TreeView, t: int, m: int, pairs: Seq<(usize, usize)>, i: int)
    requires
        tree_wf(tt),
        tree_wf(mt),
        0 <= t < tt.0.len(),
        0 <= m < mt.0.len(),
        0 <= i,
        forall|n: int| 0 <= n < pairs.len() ==> {
            let q = #[trigger] pairs[n];
            &&& q.0 < tt.1[t].len()
            &&& q.1 < mt.1[m].len()
            &&& child_channels(tt, t)[q.0 as int] == child_channels(mt, m)[q.1 as int]
        },
    ensures
        children_walk_ok(tt, mt, t, m, walk_children(tt, mt, t, m, pairs, i)),
    decreases mt.0.len() - m, 0int, pairs.len() - i,
{
    let w = walk_children(tt, mt, t, m, pairs, i);
    if i < pairs.len() {
        let q = pairs[i];
        let tc = tt.1[t][q.0 as int] as int;
        let mc = mt.1[m][q.1 as int] as int;
        assert(t < tc < tt.0.len());
        assert(m < mc < mt.0.len());
        let first = walk_pairs(tt, mt, tc, mc);
        let rest = walk_children(tt, mt, t, m, pairs, i + 1);
        lemma_walk_law(tt, mt, tc, mc);
        lemma_children_law(tt, mt, t, m, pairs, i + 1);
        assert(w == first + rest);
        assert(is_child(tt, t, tc)) by {
            assert(tt.1[t][q.0 as int] == tc);
        }
        assert(is_child(mt, m, mc)) by {
            assert(mt.1[m][q.1 as int] == mc);
        }
        assert forall|k: int|
            #![trigger w[k]]
            0 <= k < w.len() implies tt.0[w[k].0 as int] == mt.0[w[k].1 as int] && ((is_child(tt, t, w[k].0 as int)
                && is_child(mt, m, w[k].1 as int)) || parent_walked(tt, mt, w, k)) by {
            if k == 0 {
                assert(w[0] == first[0]);
                assert(child_channels(tt, t)[q.0 as int] == tt.0[tc]);
                assert(child_channels(mt, m)[q.1 as int] == mt.0[mc]);
            } else if k < first.len() {
                assert(w[k] == first[k]);
                assert(parent_walked(tt, mt, first, k));
                let j = choose|j: int|
                    #![trigger first[j]]
                    0 <= j < k && is_child(tt, first[j].0 as int, first[k].0 as int) && is_child(
                        mt,
                        first[j].1 as int,
                        first[k].1 as int,
                    );
                assert(w[j] == first[j]);
                assert(0 <= j < k && is_child(tt, w[j].0 as int, w[k].0 as int) && is_child(mt, w[j].1 as int, w[k].1 as int));
            } else {
                let k2 = k - first.len();
                assert(w[k] == rest[k2]);
                if !(is_child(tt, t, rest[k2].0 as int) && is_child(mt, m, rest[k2].1 as int)) {
                    assert(parent_walked(tt, mt, rest, k2));
                    let j = choose|j: int|
                        #![trigger rest[j]]
                        0 <= j < k2 && is_child(tt, rest[j].0 as int, rest[k2].0 as int) && is_child(
                            mt,
                            rest[j].1 as int,
                            rest[k2].1 as int,
                        );
                    assert(w[j + first.len()] == rest[j]);
                    let jj = j + first.len();
                    assert(0 <= jj < k && is_child(tt, w[jj].0 as int, w[k].0 as int) && is_child(mt, w[jj].1 as int, w[k].1 as int));
                }
            }
        }
    }
}

/// The channels of the children of `node`, in order.
fn child_channel_vec(tree: &ChannelTree, node: usize) -> (chans: Vec<usize>)
    requires
        tree.wf(),
        node < tree.channel.len(),
    ensures
        chans@ == child_channels(tree@, node as int),
{
    let ghost tr = tree@;
    let kids = &tree.children[node];
    assert(kids@ == tr.1[node as int]);
    let mut chans: Vec<usize> = Vec::new();
    let mut j: usize = 0;
    while j < kids.len()
        invariant
            tree.wf(),
            tr == tree@,
            node < tree.channel.len(),
            kids@ == tr.1[node as int],
            j <= kids.len(),
            chans@ == child_channels(tr, node as int).take(j as int),
        decreases kids.len() - j,
    {
        assert(node < kids[j as int] < tr.0.len());
        chans.push(tree.channel[kids[j]]);
        j += 1;
        assert(chans@ =~= child_channels(tr, node as int).take(j as int));
    }
    assert(chans@ =~= child_channels(tr, node as int));
    chans
}

fn walk_into(tt: &ChannelTree, mt: &ChannelTree, t: usize, m: usize, out: &mut Vec<(usize, usize)>)
    requires
        tt.wf(),
        mt.wf(),
        t < tt.channel.len(),
        m < mt.channel.len(),
    ensures
        final(out)@ == old(out)@ + walk_pairs(tt@, mt@, t as int, m as int),
    decreases mt.channel.len() - m,
{
    let ghost before = out@;
    out.push((t, m));
    if mt.stops[m] {
        assert(out@ =~= before + walk_pairs(tt@, mt@, t as int, m as int));
        return;
    }
    let tch = child_channel_vec(tt, t);
    let mch = child_channel_vec(mt, m);
    let pairs = align_children(&tch, &mch);
    let ghost w0 = walk_children(tt@, mt@, t as int, m as int, pairs@, 0);
    assert(walk_pairs(tt@, mt@, t as int, m as int) == seq![(t, m)] + w0);
    assert(tt.children@[t as int]@ == tt@.1[t as int]);
    assert(mt.children@[m as int]@ == mt@.1[m as int]);
    let mut k: usize = 0;
    assert(out@ + walk_children(tt@, mt@, t as int, m as int, pairs@, 0) =~= before + seq![(t, m)] + w0);
    while k < pairs.len()
        invariant
            tt.wf(),
            mt.wf(),
            t < tt.channel.len(),
            m < mt.channel.len(),
            !mt@.2[m as int],
            tt.children@[t as int]@ == tt@.1[t as int],
            mt.children@[m as int]@ == mt@.1[m as int],
            forall|n: int| 0 <= n < pairs.len() ==> {
                let q = #[trigger] pairs@[n];
                &&& q.0 < tch.len()
                &&& q.1 < mch.len()
            },
            tch@ == child_channels(tt@, t as int),
            mch@ == child_channels(mt@, m as int),
            k <= pairs.len(),
            out@ + walk_children(tt@, mt@, t as int, m as int, pairs@, k as int) == before + seq![(t, m)] + w0,
        decreases pairs.len() - k,
    {
        let (a, b) = pairs[k];
        assert(pairs@[k as int] == (a, b));
        let tc = tt.children[t][a];
        let mc = mt.children[m][b];
        assert(tc == tt@.1[t as int][a as int]);
        assert(mc == mt@.1[m as int][b as int]);
        assert(t < tc < tt.channel.len());
        assert(m < mc < mt.channel.len());
        let ghost mid = out@;
        let ghost rest = walk_children(tt@, mt@, t as int, m as int, pairs@, k + 1);
        assert(walk_children(tt@, mt@, t as int, m as int, pairs@, k as int) == walk_pairs(
            tt@,
            mt@,
            tc as int,
            mc as int,
        ) + rest);
        walk_into(tt, mt, tc, mc, out);
        assert(mid + (walk_pairs(tt@, mt@, tc as int, mc as int) + rest) =~= out@ + rest);
        k += 1;
    }
    assert(out@ + walk_children(tt@, mt@, t as int, m as int, pairs@, k as int) =~= out@);
    assert(before + seq![(t, m)] + w0 =~= before + (seq![(t, m)] + w0));
}

/// The walk of mutator tree `mt` over target tree `tt` from target node `t` and
/// mutator node `m` (see [walk_pairs]): the pairs on which the mutator node is applied
/// to the target node where their channels match (the first pair, where they may
/// not; every later pair is on one channel, see [channel_paths_match]).
pub fn walk_plan(tt: &ChannelTree, mt: &ChannelTree, t: usize, m: usize) -> (plan: Vec<(usize, usize)>)
    requires
        tt.wf(),
        mt.wf(),
        t < tt.channel.len(),
        m < mt.channel.len(),
    ensures
        plan@ == walk_pairs(tt@, mt@, t as int, m as int),
        channel_paths_match(tt@, mt@, t as int, m as int, plan@),
{
    let mut plan: Vec<(usize, usize)> = Vec::new();
    walk_into(tt, mt, t, m, &mut plan);
    proof {
        assert(plan@ =~= walk_pairs(tt@, mt@, t as int, m as int));
        lemma_walk_law(tt@, mt@, t as int, m as int);
    }
    plan
}

/// The checks a conditional repeat begins with, as a stack whose last entry is checked
/// first: its starting pairs among the children of target node `t` and mutator node
/// `m` (see [repeat_while_starts]), as node pairs, the first on top.
pub open spec fn repeat_start_stack(tt: TreeView, mt: TreeView, t: int, m: int) -> Seq<(usize, usize)> {
    let starts = repeat_while_starts(child_channels(tt, t), child_channels(mt, m), 0, 0);
    Seq::new(
        starts.len(),
        |j: int|
            {
                let q = starts[starts.len() - 1 - j];
                (tt.1[t][q.0 as int], mt.1[m][q.1 as int])
            },
    )
}

/// The stack of checks after one: the check on top is taken off; where the verdict
/// holds, the target's children are checked next with the same mutator node, the first
/// child on top.
pub open spec fn repeat_next_stack(tt: TreeView, stack: Seq<(usize, usize)>, verdict: bool) -> Seq<(usize, usize)> {
    let (t, m) = stack.last();
    let kids = tt.1[t as int];
    if verdict {
        stack.drop_last() + Seq::new(kids.len(), |j: int| (kids[kids.len() - 1 - j], m))
    } else {
        stack.drop_last()
    }
}

/// The walks with which a conditional repeat resumes where its verdict fails at the
/// check on top of `stack`: from that target, with the children of the mutator node
/// that [resumed_from] picks for the target's channel, in order.
pub open spec fn repeat_resumed(tt: TreeView, mt: TreeView, stack: Seq<(usize, usize)>) -> Seq<(usize, usize)> {
    let (t, m) = stack.last();
    resumed_from(child_channels(mt, m as int), tt.0[t as int], 0).map_values(
        |i: usize| (t, mt.1[m as int][i as int]),
    )
}

/// Where a conditional repeat of mutator node `m` over target node `t` begins (see
/// [repeat_start_stack]). The mutator node of an instruction has children.
pub fn repeat_while_start(tt: &ChannelTree, mt: &ChannelTree, t: usize, m: usize) -> (stack: Vec<(usize, usize)>)
    requires
        tt.wf(),
        mt.wf(),
        t < tt.channel.len(),
        m < mt.channel.len(),
        mt@.1[m as int].len() > 0,
    ensures
        stack@ == repeat_start_stack(tt@, mt@, t as int, m as int),
{
    let tch = child_channel_vec(tt, t);
    let mch = child_channel_vec(mt, m);
    let starts = repeat_while_pairs(&tch, &mch);
    proof {
        lemma_repeat_starts_in_range(tch@, mch@, 0, 0);
        assert(tt.children@[t as int]@ == tt@.1[t as int]);
        assert(mt.children@[m as int]@ == mt@.1[m as int]);
    }
    let ghost want = repeat_start_stack(tt@, mt@, t as int, m as int);
    let mut stack: Vec<(usize, usize)> = Vec::new();
    let mut j: usize = starts.len();
    while j > 0
        invariant
            tt.wf(),
            mt.wf(),
            j <= starts.len(),
            starts@ == repeat_while_starts(tch@, mch@, 0, 0),
            tch@ == child_channels(tt@, t as int),
            mch@ == child_channels(mt@, m as int),
            tt.children@[t as int]@ == tt@.1[t as int],
            mt.children@[m as int]@ == mt@.1[m as int],
            t < tt.channel.len(),
            m < mt.channel.len(),
            forall|n: int| 0 <= n < starts.len() ==> {
                let q = #[trigger] starts@[n];
                &&& q.0 < tch.len()
                &&& q.1 < mch.len()
            },
            want == repeat_start_stack(tt@, mt@, t as int, m as int),
            stack@ == want.take(starts.len() - j),
        decreases j,
    {
        j -= 1;
        let (a, b) = starts[j];
        assert(starts@[j as int] == (a, b));
        stack.push((tt.children[t][a], mt.children[m][b]));
        assert(stack@ =~= want.take(starts.len() - j));
    }
    assert(stack@ =~= want);
    stack
}

proof fn lemma_repeat_starts_in_range(targets: Seq<usize>, mutators: Seq<usize>, t: int, m: int)
    requires
        0 <= t,
        0 <= m,
        targets.len() <= usize::MAX,
        mutators.len() <= usize::MAX,
    ensures
        forall|n: int| 0 <= n < repeat_while_starts(targets, mutators, t, m).len() ==> {
            let q = #[trigger] repeat_while_starts(targets, mutators, t, m)[n];
            &&& q.0 < targets.len()
            &&& q.1 < mutators.len()
        },
    decreases targets.len() - t,
{
    let w = repeat_while_starts(targets, mutators, t, m);
    if t < targets.len() && m < mutators.len() {
        if mutators[m] >= targets[t] && t + 1 < targets.len() {
            lemma_repeat_starts_in_range(targets, mutators, t + 1, m);
        } else if m + 1 < mutators.len() && t + 1 < targets.len() {
            lemma_repeat_starts_in_range(targets, mutators, t + 1, m + 1);
        }
        let here: Seq<(usize, usize)> = if mutators[m] == targets[t] {
            seq![(t as usize, m as usize)]
        } else {
            Seq::empty()
        };
        assert forall|n: int| 0 <= n < w.len() implies {
            let q = #[trigger] w[n];
            &&& q.0 < targets.len()
            &&& q.1 < mutators.len()
        } by {
            if n >= here.len() {
                if mutators[m] >= targets[t] && t + 1 < targets.len() {
                    assert(w[n] == repeat_while_starts(targets, mutators, t + 1, m)[n - here.len()]);
                } else if m + 1 < mutators.len() && t + 1 < targets.len() {
                    assert(w[n] == repeat_while_starts(targets, mutators, t + 1, m + 1)[n - here.len()]);
                }
            }
        }
    }
}

/// One check of a conditional repeat: the check on top of `stack` got `verdict` from
/// the repeat's predicate. Where it holds, the mutator node is applied to the target
/// node (`applied`), and the target's children are checked next (see
/// [repeat_next_stack]); where it does not, the walk resumes from the target with the
/// pairs in `resumed` (see [repeat_resumed]).
pub fn repeat_while_step(tt: &ChannelTree, mt: &ChannelTree, stack: &mut Vec<(usize, usize)>, verdict: bool) -> (out: (
    Option<(usize, usize)>,
    Vec<(usize, usize)>,
))
    requires
        tt.wf(),
        mt.wf(),
        old(stack).len() > 0,
        old(stack)@.last().0 < tt.channel.len(),
        old(stack)@.last().1 < mt.channel.len(),
    ensures
        final(stack)@ == repeat_next_stack(tt@, old(stack)@, verdict),
        out.0 == if verdict { Some(old(stack)@.last()) } else { None::<(usize, usize)> },
        out.1@ == if verdict { Seq::empty() } else { repeat_resumed(tt@, mt@, old(stack)@) },
{
    let ghost old_stack = stack@;
    let (t, m) = stack.pop().unwrap();
    assert(stack@ == old_stack.drop_last());
    if verdict {
        let kids = &tt.children[t];
        assert(kids@ == tt@.1[t as int]);
        let ghost base = stack@;
        let mut j: usize = kids.len();
        while j > 0
            invariant
                j <= kids.len(),
                kids@ == tt@.1[t as int],
                stack@ == base + Seq::new((kids.len() - j) as nat, |i: int| (kids@[kids.len() - 1 - i], m)),
            decreases j,
        {
            j -= 1;
            stack.push((kids[j], m));
            assert(stack@ =~= base + Seq::new((kids.len() - j) as nat, |i: int| (kids@[kids.len() - 1 - i], m)));
        }
        assert(stack@ =~= repeat_next_stack(tt@, old_stack, verdict));
        (Some((t, m)), Vec::new())
    } else {
        let mch = child_channel_vec(mt, m);
        let picked = resumed_mutators(&mch, tt.channel[t]);
        proof {
            lemma_resumed_in_range(mch@, tt@.0[t as int], 0);
            assert(mt.children@[m as int]@ == mt@.1[m as int]);
        }
        let kids = &mt.children[m];
        let mut resumed: Vec<(usize, usize)> = Vec::new();
        let mut i: usize = 0;
        while i < picked.len()
            invariant
                i <= picked.len(),
                kids@ == mt@.1[m as int],
                mch@ == child_channels(mt@, m as int),
                forall|n: int| 0 <= n < picked.len() ==> #[trigger] picked@[n] < mch.len(),
                resumed@ == picked@.take(i as int).map_values(|x: usize| (t, mt@.1[m as int][x as int])),
            decreases picked.len() - i,
        {
            assert(picked@[i as int] < mch.len());
            resumed.push((t, kids[picked[i]]));
            assert(resumed@ =~= picked@.take(i + 1).map_values(|x: usize| (t, mt@.1[m as int][x as int])));
            i += 1;
        }
        assert(picked@.take(i as int) =~= picked@);
        (None, resumed)
    }
}

proof fn lemma_resumed_in_range(mutators: Seq<usize>, channel: usize, i: int)
    requires
        0 <= i,
        mutators.len() <= usize::MAX,
    ensures
        forall|n: int| 0 <= n < resumed_from(mutators, channel, i).len() ==> #[trigger] resumed_from(mutators, channel, i)[n] < mutators.len(),
    decreases mutators.len() - i,
{
    let r = resumed_from(mutators, channel, i);
    if i < mutators.len() && mutators[i] <= channel {
        lemma_resumed_in_range(mutators, channel, i + 1);
        let rest = resumed_from(mutators, channel, i + 1);
        if mutators[i] == channel {
            assert forall|n: int| 0 <= n < r.len() implies #[trigger] r[n] < mutators.len() by {
                if n > 0 {
                    assert(r[n] == rest[n - 1]);
                }
            }
        }
    }
}

} // verus!
