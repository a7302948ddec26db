//! The scrape cycle's aggregation rules. The caller lists nodes and fetches
//! each node's two payloads; this module owns every decision: how the two
//! payloads of one node combine, how the per-node results of one cycle fold
//! into the committed buffer, and that a failed node is skipped rather than
//! failing the cycle.

use vstd::prelude::*;

use crate::store::ScrapeStore;

verus! {

/// One node's combined telemetry: the cAdvisor payload, a line break, then
/// the resource-metrics payload.
pub open spec fn combined_payloads(cadvisor: Seq<char>, resource: Seq<char>) -> Seq<char> {
    cadvisor + seq!['\n'] + resource
}

/// Joins a node's two payloads, cAdvisor lines first.
pub fn combine_node_payloads(cadvisor: &str, resource: &str) -> (r: String)
    ensures
        r@ == combined_payloads(cadvisor@, resource@),
{
    let mut s = String::from_str(cadvisor);
    s.append("\n");
    s.append(resource);
    proof {
        reveal_strlit("\n");
        assert((cadvisor@ + "\n"@) + resource@ =~= combined_payloads(cadvisor@, resource@));
    }
    s
}

/// Why one node's telemetry is missing from a cycle.
#[derive(Clone, Copy, Debug, PartialEq, Eq, Structural)]
pub enum FetchError {
    /// The node's cAdvisor endpoint could not be read.
    Cadvisor,
    /// The node's resource-metrics endpoint could not be read.
    Resource,
}

/// Joins the outcome of one node's two fetches: the combined text only when
/// both payloads arrived, and the failed endpoint's error when either fetch
/// failed — a node is never represented by half its telemetry.
pub fn combine_fetches(cadvisor: Option<String>, resource: Option<String>) -> (r: Result<
    String,
    FetchError,
>)
    ensures
        match r {
            Ok(t) => {
                &&& cadvisor is Some
                &&& resource is Some
                &&& t@ == combined_payloads(cadvisor.unwrap()@, resource.unwrap()@)
            },
            Err(FetchError::Cadvisor) => cadvisor is None,
            Err(FetchError::Resource) => cadvisor is Some && resource is None,
        },
{
    match (cadvisor, resource) {
        (Some(c), Some(m)) => Ok(combine_node_payloads(c.as_str(), m.as_str())),
        (None, _) => Err(FetchError::Cadvisor),
        (Some(_), None) => Err(FetchError::Resource),
    }
}

pub open spec fn results_view(rs: Seq<Result<String, FetchError>>) -> Seq<Option<Seq<char>>> {
    rs.map_values(
        |o: Result<String, FetchError>|
            match o {
                Ok(s) => Some(s@),
                Err(_) => None,
            },
    )
}

/// The cycle buffer that a sequence of per-node fetch outcomes folds into:
/// each fetched text in node-list order, each closed by a line break; a
/// failed node contributes nothing.
pub open spec fn aggregate_spec(results: Seq<Option<Seq<char>>>) -> Seq<char>
    decreases results.len(),
{
    if results.len() == 0 {
        Seq::empty()
    } else {
        aggregate_spec(results.drop_last()) + match results.last() {
            Some(t) => t + seq!['\n'],
            None => Seq::empty(),
        }
    }
}

/// Folds one cycle's per-node outcomes into the buffer to commit.
pub fn aggregate_cycle(results: &Vec<Result<String, FetchError>>) -> (buf: String)
    ensures
        buf@ == aggregate_spec(results_view(results@)),
{
    let ghost rv = results_view(results@);
    let n = results.len();
    let mut buf = String::new();
    let mut i: usize = 0;
    proof {
        assert(rv.subrange(0, 0) =~= Seq::<Option<Seq<char>>>::empty());
    }
    while i < n
        invariant
            rv == results_view(results@),
            i <= n == results@.len(),
            buf@ == aggregate_spec(rv.subrange(0, i as int)),
        decreases n - i,
    {
        let ghost pre = rv.subrange(0, i as int);
        let ghost post = rv.subrange(0, i + 1);
        proof {
            assert(post.drop_last() =~= pre);
            assert(post.last() == rv[i as int]);
        }
        match &results[i] {
            Ok(text) => {
                proof {
                    reveal_strlit("\n");
                    assert((buf@ + text@) + "\n"@ =~= buf@ + (text@ + seq!['\n']));
                }
                buf.append(text.as_str());
                buf.append("\n");
            },
            Err(_) => {
                proof {
                    assert(buf@ + Seq::<char>::empty() =~= buf@);
                }
            },
        }
        i = i + 1;
    }
    proof {
        assert(rv.subrange(0, n as int) =~= rv);
    }
    buf
}

/// Completes one scrape cycle: folds the per-node outcomes and publishes
/// the buffer. The previous entry is superseded whole; a cycle with every
/// fetch failed still commits (an empty buffer).
pub fn complete_cycle(store: &mut ScrapeStore, results: &Vec<Result<String, FetchError>>)
    ensures
        final(store)@ == Some(aggregate_spec(results_view(results@))),
{
    let buf = aggregate_cycle(results);
    store.commit(buf);
}

/// A failed node leaves no trace: dropping its entry from the outcome list
/// leaves the cycle buffer unchanged, so the buffer holds exactly the
/// fetched nodes' text and nothing of the failed ones.
pub proof fn lemma_aggregate_skips_failures(results: Seq<Option<Seq<char>>>, i: int)
    requires
        0 <= i < results.len(),
        results[i] is None,
    ensures
        aggregate_spec(results) == aggregate_spec(results.remove(i)),
    decreases results.len(),
{
    let shorter = results.remove(i);
    if i == results.len() - 1 {
        assert(shorter =~= results.drop_last());
        assert(aggregate_spec(results) == aggregate_spec(results.drop_last()) + Seq::<
            char,
        >::empty());
        assert(aggregate_spec(results.drop_last()) + Seq::<char>::empty() =~= aggregate_spec(
            results.drop_last(),
        ));
    } else {
        let d = results.drop_last();
        assert(d[i] is None);
        lemma_aggregate_skips_failures(d, i);
        assert(shorter.drop_last() =~= d.remove(i));
        assert(shorter.last() == results.last());
    }
}

} // verus!
