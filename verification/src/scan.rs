//! The aggregation side of the port-range scanner.
//!
//! Probing a port is the caller's business; the functions here enumerate the
//! range and collect the ports whose probe succeeded, so that the result is
//! exactly the set of open ports whatever order the probes resolved in.

use vstd::prelude::*;

verus! {

/// Every port of the inclusive range `[from, to]`, ascending; empty when
/// `from` exceeds `to`. The upper bound may be the largest port number
/// without overflowing.
pub fn ports_in_range(from: u16, to: u16) -> (r: Vec<u16>)
    ensures
        from > to ==> r@.len() == 0,
        from <= to ==> r@.len() == to - from + 1,
        forall|i: int| 0 <= i < r@.len() ==> r@[i] == from + i,
{
    let mut r: Vec<u16> = Vec::new();
    if from > to {
        return r;
    }
    let count: usize = (to - from) as usize + 1;
    let mut i: usize = 0;
    while i < count
        invariant
            from <= to,
            count == to - from + 1,
            0 <= i <= count,
            r@.len() == i,
            forall|j: int| 0 <= j < i ==> r@[j] == from + j,
        decreases count - i,
    {
        r.push(from + (i as u16));
        i = i + 1;
    }
    r
}

/// The ports of the outcomes whose probe succeeded, in the order given.
pub open spec fn open_ports(outcomes: Seq<(u16, bool)>) -> Seq<u16>
    decreases outcomes.len(),
{
    if outcomes.len() == 0 {
        Seq::empty()
    } else {
        let rest = open_ports(outcomes.drop_last());
        if outcomes.last().1 {
            rest.push(outcomes.last().0)
        } else {
            rest
        }
    }
}

/// Collects the ports whose probe succeeded.
pub fn collect_open(outcomes: &Vec<(u16, bool)>) -> (r: Vec<u16>)
    ensures
        r@ == open_ports(outcomes@),
{
    let mut r: Vec<u16> = Vec::new();
    let mut i: usize = 0;
    while i < outcomes.len()
        invariant
            0 <= i <= outcomes@.len(),
            r@ == open_ports(outcomes@.take(i as int)),
        decreases outcomes@.len() - i,
    {
        proof {
            assert(outcomes@.take(i as int + 1).drop_last() =~= outcomes@.take(i as int));
        }
        let (port, open) = outcomes[i];
        if open {
            r.push(port);
        }
        i = i + 1;
    }
    proof {
        assert(outcomes@.take(outcomes@.len() as int) =~= outcomes@);
    }
    r
}

/// The collected result holds exactly the ports whose probe succeeded,
/// whatever order the outcomes were gathered in: aggregation loses no open
/// port and invents none.
pub proof fn lemma_open_ports_exact(outcomes: Seq<(u16, bool)>)
    ensures
        forall|p: u16|
            #[trigger] open_ports(outcomes).contains(p) <==> outcomes.contains((p, true)),
    decreases outcomes.len(),
{
    if outcomes.len() == 0 {
    } else {
        let head = outcomes.drop_last();
        let last = outcomes.last();
        lemma_open_ports_exact(head);
        assert(forall|x: (u16, bool)| head.contains(x) ==> #[trigger] outcomes.contains(x)) by {
            assert forall|x: (u16, bool)| head.contains(x) implies #[trigger] outcomes.contains(
                x,
            ) by {
                let j = choose|j: int| 0 <= j < head.len() && head[j] == x;
                assert(outcomes[j] == x);
            }
        }
        assert forall|p: u16| #[trigger] open_ports(outcomes).contains(p) implies outcomes.contains(
            (p, true),
        ) by {
            let s = open_ports(outcomes);
            let rest = open_ports(head);
            let j = choose|j: int| 0 <= j < s.len() && s[j] == p;
            if last.1 && j == s.len() - 1 {
                assert(outcomes[outcomes.len() - 1] == (p, true));
                assert(outcomes.contains((p, true)));
            } else {
                assert(rest[j] == p);
                assert(rest.contains(p));
                assert(head.contains((p, true)));
            }
        }
        assert forall|p: u16| outcomes.contains((p, true)) implies open_ports(outcomes).contains(
            p,
        ) by {
            let s = open_ports(outcomes);
            let rest = open_ports(head);
            let j = choose|j: int| 0 <= j < outcomes.len() && outcomes[j] == (p, true);
            if j == outcomes.len() - 1 {
                assert(s[s.len() - 1] == p);
                assert(s.contains(p));
            } else {
                assert(head[j] == (p, true));
                assert(head.contains((p, true)));
                assert(rest.contains(p));
                let k = choose|k: int| 0 <= k < rest.len() && rest[k] == p;
                assert(s[k] == p);
                assert(s.contains(p));
            }
        }
    }
}

} // verus!
