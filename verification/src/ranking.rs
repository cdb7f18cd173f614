//! Ports found in the files of a project, and which of them to suggest first.

use vstd::prelude::*;

verus! {

/// Where a port was found.
#[derive(Debug, Clone, Copy, PartialEq, Eq, Structural)]
pub enum PortSource {
    Env,
    PackageScript,
    EsbuildConfig,
    ViteConfig,
    DockerCompose,
}

/// A port that a project may use.
#[derive(Debug)]
pub struct PortCandidate {
    pub port: u16,
    pub source: PortSource,
    /// The place where it was found.
    pub detail: String,
    /// How likely it is the right one, in hundredths.
    pub confidence: u8,
}

/// What a `PortCandidate` says.
pub struct CandidateModel {
    pub port: u16,
    pub source: PortSource,
    pub detail: Seq<char>,
    pub confidence: u8,
}

impl View for PortCandidate {
    type V = CandidateModel;

    open spec fn view(&self) -> CandidateModel {
        CandidateModel {
            port: self.port,
            source: self.source,
            detail: self.detail@,
            confidence: self.confidence,
        }
    }
}

impl Clone for PortCandidate {
    fn clone(&self) -> (r: Self)
        ensures
            r == *self,
    {
        PortCandidate {
            port: self.port,
            source: self.source,
            detail: self.detail.clone(),
            confidence: self.confidence,
        }
    }
}

/// What each candidate in a list says.
pub open spec fn candidate_models(v: Seq<PortCandidate>) -> Seq<CandidateModel> {
    Seq::new(v.len(), |i: int| v[i]@)
}

/// The place of a source among sources of equal confidence: lower comes first.
pub open spec fn source_priority(source: PortSource) -> u8 {
    match source {
        PortSource::Env => 0,
        PortSource::PackageScript => 1,
        PortSource::EsbuildConfig => 2,
        PortSource::ViteConfig => 3,
        PortSource::DockerCompose => 4,
    }
}

/// Whether `a` is suggested before `b`: by confidence, then by source, then by port.
pub open spec fn ranks_before(a: CandidateModel, b: CandidateModel) -> bool {
    ||| a.confidence > b.confidence
    ||| a.confidence == b.confidence && source_priority(a.source) < source_priority(b.source)
    ||| a.confidence == b.confidence && source_priority(a.source) == source_priority(b.source)
        && a.port < b.port
}

/// Whether candidates stand in the order in which they are suggested.
pub open spec fn ranked(v: Seq<CandidateModel>) -> bool {
    forall|i: int, j: int| 0 <= i < j < v.len() ==> ranks_before(#[trigger] v[i], #[trigger] v[j])
}

/// Whether the candidate at `k` is the best of the first `n` for its port: none ranks before it,
/// and it is the first of those that rank with it.
pub open spec fn best_for_port(v: Seq<CandidateModel>, n: int, k: int) -> bool {
    0 <= k < n && forall|m: int|
        0 <= m < n && m != k && (#[trigger] v[m]).port == v[k].port ==> ranks_before(v[k], v[m])
            || (!ranks_before(v[m], v[k]) && k < m)
}

/// Whether `v[k]`, the best for its port among the first `n`, is the candidate `x`.
pub open spec fn chosen_at(v: Seq<CandidateModel>, n: int, k: int, x: CandidateModel) -> bool {
    best_for_port(v, n, k) && v[k] == x
}

/// Whether `x` is the best of the first `n` candidates for its port.
pub open spec fn is_chosen(v: Seq<CandidateModel>, n: int, x: CandidateModel) -> bool {
    exists|k: int| #[trigger] chosen_at(v, n, k, x)
}

/// Whether some candidate is for this port.
pub open spec fn has_candidate(v: Seq<CandidateModel>, port: u16) -> bool {
    exists|i: int| 0 <= i < v.len() && (#[trigger] v[i]).port == port
}

/// Whether no two candidates are for one port.
pub open spec fn distinct_ports(v: Seq<CandidateModel>) -> bool {
    forall|i: int, j: int|
        0 <= i < j < v.len() ==> (#[trigger] v[i]).port != (#[trigger] v[j]).port
}

/// Whether `result` holds, for each port of the first `n` candidates, the best one, in the order
/// in which they are suggested.
pub open spec fn ranks_first(result: Seq<CandidateModel>, v: Seq<CandidateModel>, n: int) -> bool {
    &&& ranked(result)
    &&& distinct_ports(result)
    &&& forall|i: int| 0 <= i < result.len() ==> #[trigger] is_chosen(v, n, result[i])
    &&& forall|m: int| 0 <= m < n ==> #[trigger] has_candidate(result, v[m].port)
}

/// Whether `result` is the ranking of some candidates.
pub open spec fn is_ranking(result: Seq<CandidateModel>, v: Seq<CandidateModel>) -> bool {
    ranks_first(result, v, v.len() as int)
}

/// The place of a source among sources of equal confidence.
pub fn port_source_priority(source: &PortSource) -> (r: u8)
    ensures
        r == source_priority(*source),
{
    match source {
        PortSource::Env => 0,
        PortSource::PackageScript => 1,
        PortSource::EsbuildConfig => 2,
        PortSource::ViteConfig => 3,
        PortSource::DockerCompose => 4,
    }
}

/// Whether `a` is suggested before `b`.
fn is_better(a: &PortCandidate, b: &PortCandidate) -> (r: bool)
    ensures
        r == ranks_before(a@, b@),
{
    let a_priority = port_source_priority(&a.source);
    let b_priority = port_source_priority(&b.source);
    a.confidence > b.confidence || (a.confidence == b.confidence && a_priority < b_priority) || (
    a.confidence == b.confidence && a_priority == b_priority && a.port < b.port)
}

/// Puts a candidate where it belongs in a ranked list that has none for its port.
fn insert_candidate(result: &mut Vec<PortCandidate>, x: PortCandidate)
    requires
        ranked(candidate_models(old(result)@)),
        forall|i: int| 0 <= i < old(result)@.len() ==> (#[trigger] old(result)@[i]).port != x.port,
    ensures
        ranked(candidate_models(final(result)@)),
        exists|at: int|
            0 <= at <= old(result)@.len() && #[trigger] old(result)@.insert(at, x)
                == final(result)@,
{
    let ghost before = candidate_models(result@);
    let mut at: usize = 0;
    while at < result.len() && is_better(&result[at], &x)
        invariant
            at <= result@.len(),
            result@ == old(result)@,
            before == candidate_models(result@),
            forall|j: int| 0 <= j < at ==> ranks_before(#[trigger] before[j], x@),
        decreases result.len() - at,
    {
        proof {
            assert(before[at as int] == result@[at as int]@);
        }
        at += 1;
    }
    let ghost model = x@;
    result.insert(at, x);
    proof {
        let after = candidate_models(result@);
        assert(after =~= before.insert(at as int, model));
        assert(result@ == old(result)@.insert(at as int, x));
        if at < before.len() {
            assert(before[at as int] == old(result)@[at as int]@);
            assert(ranks_before(model, before[at as int]));
        }
        assert forall|i: int, j: int| 0 <= i < j < after.len() implies ranks_before(
            #[trigger] after[i],
            #[trigger] after[j],
        ) by {
            if i < at && j < at {
                assert(ranks_before(before[i], before[j]));
            } else if i < at && j > at {
                assert(ranks_before(before[i], before[j - 1]));
            } else if i > at {
                assert(ranks_before(before[i - 1], before[j - 1]));
            } else if i == at && j > at + 1 {
                assert(ranks_before(before[at as int], before[j - 1]));
            }
        }
    }
}

/// Finds the candidate for a port.
fn find_port(result: &Vec<PortCandidate>, port: u16) -> (r: Option<usize>)
    ensures
        match r {
            Some(i) => i < result@.len() && result@[i as int].port == port,
            None => forall|i: int| 0 <= i < result@.len() ==> (#[trigger] result@[i]).port != port,
        },
{
    let mut i: usize = 0;
    while i < result.len()
        invariant
            i <= result@.len(),
            forall|j: int| 0 <= j < i ==> (#[trigger] result@[j]).port != port,
        decreases result.len() - i,
    {
        if result[i].port == port {
            return Some(i);
        }
        i += 1;
    }
    None
}

/// What was best for a port stays so, unless a better candidate for it comes.
proof fn lemma_still_best(v: Seq<CandidateModel>, n: int, k: int)
    requires
        0 <= n < v.len(),
        best_for_port(v, n, k),
        v[n].port != v[k].port || !ranks_before(v[n], v[k]),
    ensures
        best_for_port(v, n + 1, k),
{
}

/// A candidate that ranks before the best so far is the best.
proof fn lemma_new_best(v: Seq<CandidateModel>, n: int, k: int)
    requires
        0 <= n < v.len(),
        best_for_port(v, n, k),
        v[n].port == v[k].port,
        ranks_before(v[n], v[k]),
    ensures
        best_for_port(v, n + 1, n),
{
    assert forall|m: int|
        0 <= m < n + 1 && m != n && (#[trigger] v[m]).port == v[n].port implies ranks_before(
        v[n],
        v[m],
    ) || (!ranks_before(v[m], v[n]) && n < m) by {
        if m != k {
            assert(v[m].port == v[k].port);
        }
    }
}

/// The best candidate for each port, in the order in which they are suggested.
pub fn rank_and_dedupe_candidates(candidates: &[PortCandidate]) -> (r: Vec<PortCandidate>)
    ensures
        is_ranking(candidate_models(r@), candidate_models(candidates@)),
{
    let ghost v = candidate_models(candidates@);
    let mut result: Vec<PortCandidate> = Vec::new();
    let mut n: usize = 0;
    while n < candidates.len()
        invariant
            n <= candidates@.len(),
            v == candidate_models(candidates@),
            ranks_first(candidate_models(result@), v, n as int),
        decreases candidates.len() - n,
    {
        let x = candidates[n].clone();
        let ghost before = candidate_models(result@);
        proof {
            assert(v[n as int] == x@);
        }
        match find_port(&result, x.port) {
            Some(i) => {
                proof {
                    assert(before[i as int] == result@[i as int]@);
                }
                if is_better(&x, &result[i]) {
                    result.remove(i);
                    proof {
                        assert(candidate_models(result@) =~= before.remove(i as int));
                        lemma_replaced(before, v, n as int, i as int);
                    }
                } else {
                    proof {
                        lemma_kept(before, v, n as int, i as int);
                    }
                    n += 1;
                    continue;
                }
            },
            None => {
                proof {
                    assert forall|a: int| 0 <= a < before.len() implies (
                    #[trigger] before[a]).port != x.port by {
                        assert(before[a] == result@[a]@);
                    }
                    lemma_first_of_port(before, v, n as int);
                }
            },
        }
        let ghost rest = result@;
        proof {
            assert forall|a: int| 0 <= a < rest.len() implies (#[trigger] rest[a]).port
                != x.port by {
                assert(candidate_models(rest)[a] == rest[a]@);
            }
        }
        insert_candidate(&mut result, x);
        proof {
            let at = choose|at: int|
                0 <= at <= rest.len() && #[trigger] rest.insert(at, x) == result@;
            assert(candidate_models(result@) =~= candidate_models(rest).insert(at, x@));
            lemma_inserted(
                candidate_models(rest),
                candidate_models(result@),
                v,
                n as int,
                at,
            );
        }
        n += 1;
    }
    result
}

/// Whether `rest` ranks the first `n` candidates of `v` that are not for the port of the next
/// one, which is the best for its port.
spec fn ranks_others(rest: Seq<CandidateModel>, v: Seq<CandidateModel>, n: int) -> bool {
    &&& 0 <= n < v.len()
    &&& ranked(rest)
    &&& distinct_ports(rest)
    &&& forall|a: int| 0 <= a < rest.len() ==> (#[trigger] rest[a]).port != v[n].port
    &&& forall|a: int| 0 <= a < rest.len() ==> #[trigger] is_chosen(v, n, rest[a])
    &&& best_for_port(v, n + 1, n)
    &&& forall|m: int|
        0 <= m < n && v[m].port != v[n].port ==> #[trigger] has_candidate(rest, v[m].port)
}

/// The first candidate for a port is the best so far.
proof fn lemma_first_of_port(before: Seq<CandidateModel>, v: Seq<CandidateModel>, n: int)
    requires
        0 <= n < v.len(),
        ranks_first(before, v, n),
        forall|a: int| 0 <= a < before.len() ==> (#[trigger] before[a]).port != v[n].port,
    ensures
        ranks_others(before, v, n),
{
    assert forall|m: int| 0 <= m < n implies (#[trigger] v[m]).port != v[n].port by {
        assert(has_candidate(before, v[m].port));
    }
}

/// A better candidate takes the place of the one for its port.
proof fn lemma_replaced(before: Seq<CandidateModel>, v: Seq<CandidateModel>, n: int, i: int)
    requires
        0 <= n < v.len(),
        ranks_first(before, v, n),
        0 <= i < before.len(),
        before[i].port == v[n].port,
        ranks_before(v[n], before[i]),
    ensures
        ranks_others(before.remove(i), v, n),
{
    let rest = before.remove(i);
    assert(is_chosen(v, n, before[i]));
    let k = choose|k: int| #[trigger] chosen_at(v, n, k, before[i]);
    lemma_new_best(v, n, k);
    assert forall|a: int, b: int| 0 <= a < b < rest.len() implies ranks_before(
        #[trigger] rest[a],
        #[trigger] rest[b],
    ) && rest[a].port != rest[b].port by {
        let old_a = if a < i {
            a
        } else {
            a + 1
        };
        let old_b = if b < i {
            b
        } else {
            b + 1
        };
        assert(ranks_before(before[old_a], before[old_b]));
        assert(before[old_a].port != before[old_b].port);
    }
    assert forall|a: int| 0 <= a < rest.len() implies (#[trigger] rest[a]).port != v[n].port by {
        if a < i {
            assert(before[a].port != before[i].port);
        } else {
            assert(before[i].port != before[a + 1].port);
        }
    }
    assert forall|a: int| 0 <= a < rest.len() implies #[trigger] is_chosen(v, n, rest[a]) by {
        if a < i {
            assert(is_chosen(v, n, before[a]));
        } else {
            assert(is_chosen(v, n, before[a + 1]));
        }
    }
    assert forall|m: int| 0 <= m < n && v[m].port != v[n].port implies #[trigger] has_candidate(
        rest,
        v[m].port,
    ) by {
        assert(has_candidate(before, v[m].port));
        let a = choose|a: int| 0 <= a < before.len() && (#[trigger] before[a]).port == v[m].port;
        if a < i {
            assert(rest[a] == before[a]);
        } else {
            assert(rest[a - 1] == before[a]);
        }
    }
}

/// A candidate that is not better than the one for its port is passed over.
proof fn lemma_kept(before: Seq<CandidateModel>, v: Seq<CandidateModel>, n: int, i: int)
    requires
        0 <= n < v.len(),
        ranks_first(before, v, n),
        0 <= i < before.len(),
        before[i].port == v[n].port,
        !ranks_before(v[n], before[i]),
    ensures
        ranks_first(before, v, n + 1),
{
    assert forall|a: int| 0 <= a < before.len() implies #[trigger] is_chosen(
        v,
        n + 1,
        before[a],
    ) by {
        assert(is_chosen(v, n, before[a]));
        let k = choose|k: int| #[trigger] chosen_at(v, n, k, before[a]);
        if a < i {
            assert(before[a].port != before[i].port);
        } else if a > i {
            assert(before[i].port != before[a].port);
        }
        lemma_still_best(v, n, k);
        assert(chosen_at(v, n + 1, k, before[a]));
    }
    assert forall|m: int| 0 <= m < n + 1 implies #[trigger] has_candidate(before, v[m].port) by {
        if m == n {
            assert(before[i].port == v[m].port);
        }
    }
}

/// A ranking of the other ports, with the best candidate for one more.
proof fn lemma_inserted(
    rest: Seq<CandidateModel>,
    after: Seq<CandidateModel>,
    v: Seq<CandidateModel>,
    n: int,
    at: int,
)
    requires
        ranks_others(rest, v, n),
        0 <= at <= rest.len(),
        after == rest.insert(at, v[n]),
        ranked(after),
    ensures
        ranks_first(after, v, n + 1),
{
    assert forall|i: int| 0 <= i < after.len() implies #[trigger] is_chosen(
        v,
        n + 1,
        after[i],
    ) by {
        if i == at {
            assert(chosen_at(v, n + 1, n, after[i]));
        } else {
            let a = if i < at {
                i
            } else {
                i - 1
            };
            assert(after[i] == rest[a]);
            assert(is_chosen(v, n, rest[a]));
            let k = choose|k: int| #[trigger] chosen_at(v, n, k, rest[a]);
            lemma_still_best(v, n, k);
            assert(chosen_at(v, n + 1, k, after[i]));
        }
    }
    assert forall|i: int, j: int| 0 <= i < j < after.len() implies (#[trigger] after[i]).port != (
    #[trigger] after[j]).port by {
        let a = if i < at {
            i
        } else {
            i - 1
        };
        let b = if j < at {
            j
        } else {
            j - 1
        };
        if i == at {
            assert(after[j] == rest[b]);
        } else if j == at {
            assert(after[i] == rest[a]);
        } else {
            assert(after[i] == rest[a] && after[j] == rest[b]);
        }
    }
    assert forall|m: int| 0 <= m < n + 1 implies #[trigger] has_candidate(after, v[m].port) by {
        if v[m].port == v[n].port {
            assert(after[at].port == v[m].port);
        } else {
            assert(has_candidate(rest, v[m].port));
            let a = choose|a: int| 0 <= a < rest.len() && (#[trigger] rest[a]).port == v[m].port;
            if a < at {
                assert(after[a] == rest[a]);
            } else {
                assert(after[a + 1] == rest[a]);
            }
        }
    }
}

/// Two candidates that are chosen for one port are the same.
proof fn lemma_chosen_once(
    v: Seq<CandidateModel>,
    n: int,
    a: int,
    b: int,
    x: CandidateModel,
    y: CandidateModel,
)
    requires
        n <= v.len(),
        chosen_at(v, n, a, x),
        chosen_at(v, n, b, y),
        x.port == y.port,
    ensures
        x == y,
{
    if a != b {
        assert(v[a].port == v[b].port);
    }
}

/// What one ranking holds, the other holds too.
proof fn lemma_same_members(
    a: Seq<CandidateModel>,
    b: Seq<CandidateModel>,
    v: Seq<CandidateModel>,
    i: int,
) -> (j: int)
    requires
        is_ranking(a, v),
        is_ranking(b, v),
        0 <= i < a.len(),
    ensures
        0 <= j < b.len(),
        b[j] == a[i],
{
    let n = v.len() as int;
    assert(is_chosen(v, n, a[i]));
    let k = choose|k: int| #[trigger] chosen_at(v, n, k, a[i]);
    assert(has_candidate(b, v[k].port));
    let j = choose|j: int| 0 <= j < b.len() && (#[trigger] b[j]).port == v[k].port;
    assert(is_chosen(v, n, b[j]));
    let m = choose|m: int| #[trigger] chosen_at(v, n, m, b[j]);
    lemma_chosen_once(v, n, k, m, a[i], b[j]);
    j
}

/// Rankings agree up to a position.
proof fn lemma_rankings_agree(
    a: Seq<CandidateModel>,
    b: Seq<CandidateModel>,
    v: Seq<CandidateModel>,
    n: int,
)
    requires
        is_ranking(a, v),
        is_ranking(b, v),
        0 <= n <= a.len(),
        n <= b.len(),
    ensures
        forall|i: int| 0 <= i < n ==> a[i] == b[i],
    decreases n,
{
    if n > 0 {
        lemma_rankings_agree(a, b, v, n - 1);
        let p = lemma_same_members(a, b, v, n - 1);
        let q = lemma_same_members(b, a, v, n - 1);
        if p < n - 1 {
            assert(a[p].port != a[n - 1].port);
        }
        if q < n - 1 {
            assert(b[q].port != b[n - 1].port);
        }
        if p > n - 1 && q > n - 1 {
            assert(ranks_before(b[n - 1], b[p]));
            assert(ranks_before(a[n - 1], a[q]));
        }
    }
}

/// Candidates have one ranking only.
pub proof fn law_ranking_is_determined(
    a: Seq<CandidateModel>,
    b: Seq<CandidateModel>,
    v: Seq<CandidateModel>,
)
    requires
        is_ranking(a, v),
        is_ranking(b, v),
    ensures
        a == b,
{
    if a.len() < b.len() {
        lemma_rankings_agree(a, b, v, a.len() as int);
        let p = lemma_same_members(b, a, v, a.len() as int);
        assert(b[p].port != b[a.len() as int].port);
    } else if b.len() < a.len() {
        lemma_rankings_agree(a, b, v, b.len() as int);
        let p = lemma_same_members(a, b, v, b.len() as int);
        assert(a[p].port != a[b.len() as int].port);
    } else {
        lemma_rankings_agree(a, b, v, a.len() as int);
        assert(a =~= b);
    }
}

/// Ranking what is ranked already changes nothing.
pub proof fn law_ranking_is_idempotent(
    v: Seq<CandidateModel>,
    once: Seq<CandidateModel>,
    twice: Seq<CandidateModel>,
)
    requires
        is_ranking(once, v),
        is_ranking(twice, once),
    ensures
        twice == once,
{
    let n = once.len() as int;
    assert forall|i: int| 0 <= i < n implies #[trigger] is_chosen(once, n, once[i]) by {
        assert forall|m: int|
            0 <= m < n && m != i && (#[trigger] once[m]).port == once[i].port implies false by {
            if m < i {
                assert(once[m].port != once[i].port);
            } else {
                assert(once[i].port != once[m].port);
            }
        }
        assert(chosen_at(once, n, i, once[i]));
    }
    assert forall|m: int| 0 <= m < n implies #[trigger] has_candidate(once, once[m].port) by {
        assert(once[m].port == once[m].port);
    }
    assert(is_ranking(once, once));
    law_ranking_is_determined(twice, once, once);
}

/// The first candidate of a ranking is suggested before all others: no candidate ranks before it.
pub proof fn law_best_candidate_comes_first(
    result: Seq<CandidateModel>,
    v: Seq<CandidateModel>,
    m: int,
)
    requires
        is_ranking(result, v),
        0 <= m < v.len(),
    ensures
        result.len() > 0,
        !ranks_before(v[m], result[0]),
{
    let n = v.len() as int;
    assert(has_candidate(result, v[m].port));
    let i = choose|i: int| 0 <= i < result.len() && (#[trigger] result[i]).port == v[m].port;
    assert(is_chosen(v, n, result[i]));
    let k = choose|k: int| #[trigger] chosen_at(v, n, k, result[i]);
    if m != k {
        assert(v[m].port == v[k].port);
    }
    if i > 0 {
        assert(ranks_before(result[0], result[i]));
    }
}

} // verus!
