//! The topic router: a pure, read-only mapping from inbound topic names to
//! outbound topic names. A missing key means "not interesting", never an
//! error.

use vstd::prelude::*;

verus! {

/// First match of `t` among the `(inbound, outbound)` pairs of `m`, as the
/// mathematical meaning of a lookup. With unique keys (the router's
/// invariant) at most one pair can match, so this is a map lookup.
pub open spec fn route(m: Seq<(String, String)>, t: Seq<char>) -> Option<Seq<char>>
    decreases m.len(),
{
    if m.len() == 0 {
        None
    } else if m[0].0@ == t {
        Some(m[0].1@)
    } else {
        route(m.skip(1), t)
    }
}

/// No two pairs of `m` carry the same inbound topic.
pub open spec fn unique_keys(m: Seq<(String, String)>) -> bool {
    forall|i: int, j: int|
        0 <= i < m.len() && 0 <= j < m.len() && i != j ==> m[i].0@ != m[j].0@
}

/// The read-only table mapping inbound topic names to outbound topic names.
pub struct TopicRouter {
    entries: Vec<(String, String)>,
}

impl View for TopicRouter {
    type V = Seq<(String, String)>;

    closed spec fn view(&self) -> Seq<(String, String)> {
        self.entries@
    }
}

impl TopicRouter {
    /// Builds a router from `(inbound, outbound)` pairs, loaded once at
    /// startup. Returns `None` exactly when two pairs share an inbound
    /// topic, so every router that exists has unique keys.
    pub fn from_pairs(pairs: Vec<(String, String)>) -> (r: Option<TopicRouter>)
        ensures
            unique_keys(pairs@) <==> r is Some,
            (r matches Some(router) ==> router@ == pairs@),
    {
        let n = pairs.len();
        let mut i: usize = 0;
        while i < n
            invariant
                n == pairs@.len(),
                i <= n,
                forall|p: int, q: int|
                    0 <= p < i && p < q < n ==> pairs@[p].0@ != pairs@[q].0@,
            decreases n - i,
        {
            let mut j: usize = i + 1;
            while j < n
                invariant
                    n == pairs@.len(),
                    i < j <= n,
                    forall|q: int| i < q < j ==> pairs@[i as int].0@ != pairs@[q].0@,
                decreases n - j,
            {
                if pairs[i].0 == pairs[j].0 {
                    return None;
                }
                j += 1;
            }
            i += 1;
        }
        Some(TopicRouter { entries: pairs })
    }

    /// Resolves an inbound topic to the outbound topic it is mapped to, or
    /// `None` when the topic is not in the table. Pure and total.
    pub fn resolve(&self, topic: &String) -> (r: Option<String>)
        ensures
            match r {
                Some(out) => route(self@, topic@) == Some(out@),
                None => route(self@, topic@) is None,
            },
    {
        let n = self.entries.len();
        let mut i: usize = 0;
        proof {
            assert(self@.skip(0) =~= self@);
        }
        while i < n
            invariant
                n == self@.len(),
                i <= n,
                route(self@, topic@) == route(self@.skip(i as int), topic@),
            decreases n - i,
        {
            proof {
                assert(self@.skip(i as int).len() > 0);
                assert(self@.skip(i as int)[0] == self@[i as int]);
                assert(self@.skip(i as int).skip(1) =~= self@.skip(i + 1));
            }
            if self.entries[i].0 == *topic {
                return Some(self.entries[i].1.clone());
            }
            i += 1;
        }
        proof {
            assert(self@.skip(n as int) =~= Seq::<(String, String)>::empty());
        }
        None
    }
}

} // verus!
