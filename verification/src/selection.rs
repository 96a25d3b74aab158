//! Node selection: region-priority ordering with a sticky preference, and the
//! sequential probe walk that stops at the first reachable candidate.
//!
//! The probe itself is network work done by the driver; this module decides
//! the candidate order, decides after each probe outcome what happens next,
//! and fixes the outcome of a whole probing pass over given outcomes.

use vstd::prelude::*;
use crate::RouteError;
use crate::subscription::ProxyNode;
use crate::text::{contains_chars, contains_seq, lower_chars, lower_seq, str_to_chars, str_eq};

verus! {

/// The name carries a Singapore marker: its CJK name, or a Latin token up to
/// ASCII case.
pub open spec fn marks_singapore(name: Seq<char>) -> bool {
    ||| contains_seq(name, "\u{65B0}\u{52A0}\u{5761}"@)
    ||| contains_seq(lower_seq(name), "singapore"@)
    ||| contains_seq(lower_seq(name), "sg"@)
}

/// The name carries a Korea marker.
pub open spec fn marks_korea(name: Seq<char>) -> bool {
    ||| contains_seq(name, "\u{97E9}\u{56FD}"@)
    ||| contains_seq(lower_seq(name), "korea"@)
    ||| contains_seq(lower_seq(name), "kr"@)
}

/// The name carries a United States marker.
pub open spec fn marks_united_states(name: Seq<char>) -> bool {
    ||| contains_seq(name, "\u{7F8E}\u{56FD}"@)
    ||| contains_seq(lower_seq(name), "united states"@)
    ||| contains_seq(lower_seq(name), "usa"@)
    ||| contains_seq(lower_seq(name), "us"@)
}

/// The region bucket a node name falls in: Singapore first, then Korea, then
/// the United States, then everything else.
pub open spec fn spec_region_priority(name: Seq<char>) -> int {
    if marks_singapore(name) {
        0
    } else if marks_korea(name) {
        1
    } else if marks_united_states(name) {
        2
    } else {
        3
    }
}

/// The region bucket of a node name, as `spec_region_priority` states.
pub fn node_region_priority(name: &str) -> (p: u8)
    ensures
        p as int == spec_region_priority(name@),
{
    let chars = str_to_chars(name);
    let lower = lower_chars(&chars);
    let sg_cjk = str_to_chars("\u{65B0}\u{52A0}\u{5761}");
    let kr_cjk = str_to_chars("\u{97E9}\u{56FD}");
    let us_cjk = str_to_chars("\u{7F8E}\u{56FD}");
    if contains_chars(&chars, &sg_cjk) || contains_chars(&lower, &str_to_chars("singapore"))
        || contains_chars(&lower, &str_to_chars("sg")) {
        return 0;
    }
    if contains_chars(&chars, &kr_cjk) || contains_chars(&lower, &str_to_chars("korea"))
        || contains_chars(&lower, &str_to_chars("kr")) {
        return 1;
    }
    if contains_chars(&chars, &us_cjk) || contains_chars(&lower, &str_to_chars("united states"))
        || contains_chars(&lower, &str_to_chars("usa")) || contains_chars(
        &lower,
        &str_to_chars("us"),
    ) {
        return 2;
    }
    3
}

/// The region priority of the node at index `k`.
pub open spec fn priority_at(nodes: Seq<ProxyNode>, k: int) -> int {
    spec_region_priority(nodes[k].name@)
}

/// `s0` is the first usable node named `name`.
pub open spec fn is_sticky_head(nodes: Seq<ProxyNode>, name: Seq<char>, s0: int) -> bool {
    &&& 0 <= s0 < nodes.len()
    &&& nodes[s0].spec_usable()
    &&& nodes[s0].name@ == name
    &&& forall|m: int|
        0 <= m < s0 ==> !(#[trigger] nodes[m].spec_usable() && nodes[m].name@ == name)
}

/// Some usable node is named `name`.
pub open spec fn sticky_exists(nodes: Seq<ProxyNode>, name: Seq<char>) -> bool {
    exists|k: int| 0 <= k < nodes.len() && (#[trigger] nodes[k].spec_usable()) && nodes[k].name@ == name
}

/// The index `k` belongs in the region-sorted part of the order: it is
/// usable, and not named `excluded` where a sticky head was put in front.
pub open spec fn eligible(nodes: Seq<ProxyNode>, excluded: Option<Seq<char>>, k: int) -> bool {
    &&& 0 <= k < nodes.len()
    &&& nodes[k].spec_usable()
    &&& match excluded {
        Some(name) => nodes[k].name@ != name,
        None => true,
    }
}

/// The region-sorted part is strictly increasing in (priority, index): the
/// ordering is total on it, and equal priorities keep the input order.
pub open spec fn tail_sorted(nodes: Seq<ProxyNode>, tail: Seq<usize>) -> bool {
    forall|a: int, b: int|
        0 <= a < b < tail.len() ==> (priority_at(nodes, #[trigger] tail[a] as int) < priority_at(
            nodes,
            #[trigger] tail[b] as int,
        ) || (priority_at(nodes, tail[a] as int) == priority_at(nodes, tail[b] as int) && tail[a]
            < tail[b]))
}

/// The region-sorted part holds exactly the eligible indices.
pub open spec fn tail_complete(
    nodes: Seq<ProxyNode>,
    excluded: Option<Seq<char>>,
    tail: Seq<usize>,
) -> bool {
    &&& forall|a: int| 0 <= a < tail.len() ==> eligible(nodes, excluded, #[trigger] tail[a] as int)
    &&& forall|k: int| eligible(nodes, excluded, k) ==> #[trigger] tail.contains(k as usize)
}

/// What `order_candidates` returns: if the sticky preference names a usable
/// node, the first such node leads and the remaining usable nodes, its
/// namesakes left out, follow region-sorted; otherwise all usable nodes stand
/// region-sorted.
pub open spec fn is_candidate_order(
    nodes: Seq<ProxyNode>,
    sticky: Option<Seq<char>>,
    order: Seq<usize>,
) -> bool {
    match sticky {
        Some(name) => if sticky_exists(nodes, name) {
            &&& order.len() >= 1
            &&& is_sticky_head(nodes, name, order[0] as int)
            &&& tail_sorted(nodes, order.subrange(1, order.len() as int))
            &&& tail_complete(nodes, Some(name), order.subrange(1, order.len() as int))
        } else {
            &&& tail_sorted(nodes, order)
            &&& tail_complete(nodes, None, order)
        },
        None => {
            &&& tail_sorted(nodes, order)
            &&& tail_complete(nodes, None, order)
        },
    }
}

/// The view of the sticky preference, if any.
pub open spec fn sticky_view(sticky: Option<String>) -> Option<Seq<char>> {
    match sticky {
        Some(s) => Some(s@),
        None => None,
    }
}

/// Builds the candidate order over `nodes`: the sticky preference first if it
/// names a usable node, then the remaining usable nodes sorted by region
/// priority, ties keeping subscription order.
pub fn order_candidates(nodes: &Vec<ProxyNode>, sticky: &Option<String>) -> (order: Vec<usize>)
    ensures
        is_candidate_order(nodes@, sticky_view(*sticky), order@),
{
    // The first usable node bearing the sticky name, if there is one.
    let mut head: Option<usize> = None;
    if let Some(nm) = sticky {
        let mut k: usize = 0;
        while k < nodes.len()
            invariant_except_break
                k <= nodes@.len(),
                head is None,
                forall|m: int|
                    0 <= m < k ==> !(#[trigger] nodes@[m].spec_usable() && nodes@[m].name@ == nm@),
            ensures
                head matches Some(h) ==> is_sticky_head(nodes@, nm@, h as int),
                head is None ==> !sticky_exists(nodes@, nm@),
            decreases nodes@.len() - k,
        {
            if nodes[k].is_supported_for_sing_box() && str_eq(nodes[k].name.as_str(), nm.as_str())
            {
                head = Some(k);
                break ;
            }
            k = k + 1;
        }
    }
    let ghost excl: Option<Seq<char>> = match (head, sticky_view(*sticky)) {
        (Some(_), Some(nm)) => Some(nm),
        _ => None,
    };

    // Region-sorted part: four passes, one priority bucket each, keeping
    // subscription order inside a bucket.
    let mut tail: Vec<usize> = Vec::new();
    let mut p: u8 = 0;
    while p < 4
        invariant
            p <= 4,
            excl matches Some(e) ==> (*sticky matches Some(nm) && e == nm@ && head is Some),
            head is Some ==> (*sticky matches Some(nm) && excl == Some(nm@)),
            head is None ==> excl is None,
            forall|a: int|
                0 <= a < tail@.len() ==> eligible(nodes@, excl, #[trigger] tail@[a] as int)
                    && priority_at(nodes@, tail@[a] as int) < p,
            tail_sorted(nodes@, tail@),
            forall|k: int|
                eligible(nodes@, excl, k) && priority_at(nodes@, k) < p ==> #[trigger] tail@.contains(
                    k as usize,
                ),
        decreases 4 - p,
    {
        let mut k: usize = 0;
        while k < nodes.len()
            invariant
                p < 4,
                k <= nodes@.len(),
                excl matches Some(e) ==> (*sticky matches Some(nm) && e == nm@ && head is Some),
                head is Some ==> (*sticky matches Some(nm) && excl == Some(nm@)),
                head is None ==> excl is None,
                forall|a: int|
                    0 <= a < tail@.len() ==> eligible(nodes@, excl, #[trigger] tail@[a] as int) && (
                    priority_at(nodes@, tail@[a] as int) < p || (priority_at(nodes@, tail@[a] as int)
                        == p && tail@[a] < k)),
                tail_sorted(nodes@, tail@),
                forall|j: int|
                    eligible(nodes@, excl, j) && (priority_at(nodes@, j) < p || (priority_at(
                        nodes@,
                        j,
                    ) == p && j < k)) ==> #[trigger] tail@.contains(j as usize),
            decreases nodes@.len() - k,
        {
            let usable = nodes[k].is_supported_for_sing_box();
            let not_excluded = match (&head, sticky) {
                (Some(_), Some(nm)) => !str_eq(nodes[k].name.as_str(), nm.as_str()),
                _ => true,
            };
            proof {
                assert(not_excluded == match excl {
                    Some(e) => nodes@[k as int].name@ != e,
                    None => true,
                });
            }
            if usable && not_excluded && node_region_priority(nodes[k].name.as_str()) == p {
                let ghost old_tail = tail@;
                tail.push(k);
                proof {
                    assert(eligible(nodes@, excl, k as int));
                    assert forall|j: int|
                        eligible(nodes@, excl, j) && (priority_at(nodes@, j) < p || (priority_at(
                            nodes@,
                            j,
                        ) == p && j < k + 1)) implies #[trigger] tail@.contains(j as usize) by {
                        if j == k {
                            assert(tail@[tail@.len() - 1] == k as usize);
                        } else {
                            assert(old_tail.contains(j as usize));
                            let a = choose|a: int|
                                0 <= a < old_tail.len() && old_tail[a] == j as usize;
                            assert(tail@[a] == j as usize);
                        }
                    }
                }
            } else {
                proof {
                    assert forall|j: int|
                        eligible(nodes@, excl, j) && (priority_at(nodes@, j) < p || (priority_at(
                            nodes@,
                            j,
                        ) == p && j < k + 1)) implies #[trigger] tail@.contains(j as usize) by {
                        if j == k {
                            assert(!(eligible(nodes@, excl, k as int) && priority_at(nodes@, k as int)
                                == p));
                        }
                    }
                }
            }
            k = k + 1;
        }
        p = p + 1;
    }
    proof {
        assert forall|k: int| eligible(nodes@, excl, k) implies #[trigger] tail@.contains(k as usize)
            by {
            assert(0 <= spec_region_priority(nodes@[k].name@) < 4);
        }
        assert(tail_complete(nodes@, excl, tail@));
    }

    // Assemble: sticky head first, then the region-sorted part.
    match head {
        Some(h) => {
            let mut order: Vec<usize> = Vec::new();
            order.push(h);
            let mut i: usize = 0;
            while i < tail.len()
                invariant
                    i <= tail@.len(),
                    order@.len() == i + 1,
                    order@[0] == h,
                    order@.subrange(1, order@.len() as int) == tail@.subrange(0, i as int),
                decreases tail@.len() - i,
            {
                order.push(tail[i]);
                proof {
                    assert(order@.subrange(1, order@.len() as int) =~= tail@.subrange(0, i + 1));
                }
                i = i + 1;
            }
            proof {
                assert(tail@.subrange(0, tail@.len() as int) =~= tail@);
                assert(order@.subrange(1, order@.len() as int) == tail@);
            }
            order
        },
        None => tail,
    }
}

/// The position of the first `true` in a probe-outcome sequence.
pub open spec fn first_true(s: Seq<bool>) -> Option<int>
    decreases s.len(),
{
    if s.len() == 0 {
        None
    } else if s[0] {
        Some(0)
    } else {
        match first_true(s.drop_first()) {
            Some(j) => Some(j + 1),
            None => None,
        }
    }
}

/// A true element at `j` with only false ones before it pins `first_true`.
pub proof fn lemma_first_true_at(s: Seq<bool>, j: int)
    requires
        0 <= j < s.len(),
        s[j],
        forall|m: int| 0 <= m < j ==> !s[m],
    ensures
        first_true(s) == Some(j),
    decreases j,
{
    if j > 0 {
        lemma_first_true_at(s.drop_first(), j - 1);
    }
}

/// All-false outcomes leave `first_true` empty.
pub proof fn lemma_first_true_none(s: Seq<bool>)
    requires
        forall|m: int| 0 <= m < s.len() ==> !s[m],
    ensures
        first_true(s) == None::<int>,
    decreases s.len(),
{
    if s.len() > 0 {
        lemma_first_true_none(s.drop_first());
    }
}

/// What the driver does after one probe: select the candidate that answered,
/// move to the next when one remains, or report exhaustion.
pub enum ProbeDecision {
    Selected(usize),
    ProbeNext(usize),
    Exhausted,
}

/// Decides the next step of the probe walk from its position and the probe's
/// outcome.
pub fn selection_step(total: usize, index: usize, reachable: bool) -> (d: ProbeDecision)
    requires
        index < total,
    ensures
        reachable ==> d == ProbeDecision::Selected(index),
        !reachable && index + 1 < total ==> d == ProbeDecision::ProbeNext((index + 1) as usize),
        !reachable && index + 1 == total ==> d == ProbeDecision::Exhausted,
{
    if reachable {
        ProbeDecision::Selected(index)
    } else if index + 1 < total {
        ProbeDecision::ProbeNext(index + 1)
    } else {
        ProbeDecision::Exhausted
    }
}

/// A whole probing pass over recorded outcomes: walks the candidates in
/// order, stops at the first reachable one, and reports how many were probed.
/// Selection succeeds exactly when some candidate was reachable; otherwise it
/// fails with `NoReachableNode` after probing every candidate once.
pub fn select_among(candidates: &Vec<usize>, reachable: &Vec<bool>) -> (r: (
    Result<usize, RouteError>,
    usize,
))
    requires
        reachable@.len() == candidates@.len(),
    ensures
        match first_true(reachable@) {
            Some(j) => r.0 == Ok::<usize, RouteError>(candidates@[j]) && r.1 == j + 1,
            None => r.0 == Err::<usize, RouteError>(RouteError::NoReachableNode) && r.1
                == candidates@.len(),
        },
{
    let total = candidates.len();
    if total == 0 {
        proof {
            lemma_first_true_none(reachable@);
        }
        return (Err(RouteError::NoReachableNode), 0);
    }
    let mut i: usize = 0;
    loop
        invariant
            total == candidates@.len(),
            reachable@.len() == candidates@.len(),
            0 < total,
            i < total,
            forall|m: int| 0 <= m < i ==> !reachable@[m],
        ensures
            (exists|j: int| 0 <= j < reachable@.len() && reachable@[j] && (forall|m: int|
                0 <= m < j ==> !reachable@[m]) && first_true(reachable@) == Some(j)) || (forall|
                m: int,
            | 0 <= m < reachable@.len() ==> !reachable@[m]) && first_true(reachable@)
                == None::<int>,
        decreases total - i,
    {
        let ok = reachable[i];
        match selection_step(total, i, ok) {
            ProbeDecision::Selected(sel) => {
                proof {
                    lemma_first_true_at(reachable@, i as int);
                }
                return (Ok(candidates[sel]), i + 1);
            },
            ProbeDecision::ProbeNext(next) => {
                i = next;
            },
            ProbeDecision::Exhausted => {
                proof {
                    lemma_first_true_none(reachable@);
                }
                return (Err(RouteError::NoReachableNode), total);
            },
        }
    }
}

/// Sticky preference: when the preference names a usable node and that node
/// answers its probe, the probe walk selects exactly it, after one probe.
pub proof fn lemma_sticky_preference(
    nodes: Seq<ProxyNode>,
    name: Seq<char>,
    order: Seq<usize>,
    reachable: Seq<bool>,
)
    requires
        sticky_exists(nodes, name),
        is_candidate_order(nodes, Some(name), order),
        reachable.len() == order.len(),
        reachable[0],
    ensures
        first_true(reachable) == Some(0int),
        nodes[order[0] as int].spec_usable(),
        nodes[order[0] as int].name@ == name,
{
    lemma_first_true_at(reachable, 0);
}

/// Exhaustion: when no candidate answers, the probe walk probes every usable
/// node exactly once and fails. Stated for node lists whose usable nodes
/// carry pairwise distinct names.
pub proof fn lemma_exhaustion(
    nodes: Seq<ProxyNode>,
    sticky: Option<Seq<char>>,
    order: Seq<usize>,
    reachable: Seq<bool>,
)
    requires
        is_candidate_order(nodes, sticky, order),
        reachable.len() == order.len(),
        forall|m: int| 0 <= m < reachable.len() ==> !reachable[m],
        forall|k1: int, k2: int|
            0 <= k1 < k2 < nodes.len() && (#[trigger] nodes[k1].spec_usable())
                && (#[trigger] nodes[k2].spec_usable()) ==> nodes[k1].name@ != nodes[k2].name@,
    ensures
        first_true(reachable) == None::<int>,
        forall|k: int|
            0 <= k < nodes.len() && (#[trigger] nodes[k].spec_usable()) ==> order.contains(
                k as usize,
            ),
        forall|a: int, b: int| 0 <= a < b < order.len() ==> order[a] != order[b],
{
    lemma_first_true_none(reachable);
    let tail = match sticky {
        Some(name) => if sticky_exists(nodes, name) {
            order.subrange(1, order.len() as int)
        } else {
            order
        },
        None => order,
    };
    match sticky {
        Some(name) => {
            if sticky_exists(nodes, name) {
                let s0 = order[0] as int;
                assert(is_sticky_head(nodes, name, s0));
                assert forall|k: int|
                    0 <= k < nodes.len() && (#[trigger] nodes[k].spec_usable()) implies order.contains(
                    k as usize,
                ) by {
                    if nodes[k].name@ == name {
                        if k != s0 {
                            if k < s0 {
                                assert(!(nodes[k].spec_usable() && nodes[k].name@ == name));
                            } else {
                                assert(nodes[s0].spec_usable() && nodes[k].spec_usable());
                                assert(nodes[s0].name@ != nodes[k].name@);
                            }
                        }
                        assert(k == s0);
                        assert(order[0] == k as usize);
                    } else {
                        assert(eligible(nodes, Some(name), k));
                        assert(tail.contains(k as usize));
                        let a = choose|a: int| 0 <= a < tail.len() && tail[a] == k as usize;
                        assert(order[a + 1] == k as usize);
                    }
                }
                assert forall|a: int, b: int| 0 <= a < b < order.len() implies order[a] != order[b]
                    by {
                    if a == 0 {
                        assert(tail[b - 1] == order[b]);
                        assert(eligible(nodes, Some(name), tail[b - 1] as int));
                        assert(nodes[order[b] as int].name@ != name);
                        assert(nodes[s0].name@ == name);
                        if order[b] == order[0] {
                            assert(nodes[order[b] as int].name@ == name);
                        }
                    } else {
                        assert(tail[a - 1] == order[a]);
                        assert(tail[b - 1] == order[b]);
                    }
                }
            } else {
                assert forall|k: int|
                    0 <= k < nodes.len() && (#[trigger] nodes[k].spec_usable()) implies order.contains(
                    k as usize,
                ) by {
                    assert(eligible(nodes, None, k));
                }
            }
        },
        None => {
            assert forall|k: int|
                0 <= k < nodes.len() && (#[trigger] nodes[k].spec_usable()) implies order.contains(
                k as usize,
            ) by {
                assert(eligible(nodes, None, k));
            }
        },
    }
}

/// Absent a sticky hit, the candidate order is exactly the usable nodes, each
/// once, in a total order: increasing region priority, with the subscription
/// order kept inside one priority bucket.
pub proof fn lemma_region_priority_order(nodes: Seq<ProxyNode>, order: Seq<usize>)
    requires
        is_candidate_order(nodes, None, order),
    ensures
        forall|a: int, b: int|
            0 <= a < b < order.len() ==> (priority_at(nodes, #[trigger] order[a] as int)
                < priority_at(nodes, #[trigger] order[b] as int) || (priority_at(
                nodes,
                order[a] as int,
            ) == priority_at(nodes, order[b] as int) && order[a] < order[b])),
        forall|k: int|
            0 <= k < nodes.len() && (#[trigger] nodes[k].spec_usable()) ==> order.contains(
                k as usize,
            ),
        forall|a: int| 0 <= a < order.len() ==> nodes[#[trigger] order[a] as int].spec_usable(),
{
    assert forall|k: int|
        0 <= k < nodes.len() && (#[trigger] nodes[k].spec_usable()) implies order.contains(
        k as usize,
    ) by {
        assert(eligible(nodes, None, k));
    }
}

/// Builds the probe order for a run: with no usable node at all it fails
/// with `NoSupportedNodes`; otherwise the non-empty candidate order of
/// `order_candidates`.
pub fn build_candidates(nodes: &Vec<ProxyNode>, sticky: &Option<String>) -> (r: Result<
    Vec<usize>,
    RouteError,
>)
    ensures
        r matches Ok(order) ==> is_candidate_order(nodes@, sticky_view(*sticky), order@)
            && order@.len() >= 1,
        r is Err <==> (forall|k: int| 0 <= k < nodes@.len() ==> !(#[trigger] nodes@[k].spec_usable())),
        r matches Err(e) ==> e == RouteError::NoSupportedNodes,
{
    let order = order_candidates(nodes, sticky);
    if order.len() == 0 {
        proof {
            assert forall|k: int| 0 <= k < nodes@.len() implies !(#[trigger] nodes@[
                k
            ].spec_usable()) by {
                if nodes@[k].spec_usable() {
                    match sticky_view(*sticky) {
                        Some(name) => {
                            if sticky_exists(nodes@, name) {
                                assert(order@.len() >= 1);
                            } else {
                                assert(eligible(nodes@, None, k));
                                assert(order@.contains(k as usize));
                            }
                        },
                        None => {
                            assert(eligible(nodes@, None, k));
                            assert(order@.contains(k as usize));
                        },
                    }
                }
            }
        }
        Err(RouteError::NoSupportedNodes)
    } else {
        proof {
            let h = order@[0];
            match sticky_view(*sticky) {
                Some(name) => {
                    if sticky_exists(nodes@, name) {
                        assert(is_sticky_head(nodes@, name, h as int));
                        assert(nodes@[h as int].spec_usable());
                    } else {
                        assert(eligible(nodes@, None, h as int));
                    }
                },
                None => {
                    assert(eligible(nodes@, None, h as int));
                },
            }
            assert(nodes@[h as int].spec_usable());
        }
        Ok(order)
    }
}

} // verus!
