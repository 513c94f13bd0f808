//! A standalone least-connections balancer: each server carries its own
//! connection tally, and selection scans for the first minimum.

use vstd::prelude::*;

use crate::lb_service::first_min_index;

verus! {

pub struct Server {
    server: String,
    no_conn: usize,
}

impl Server {
    /// The server's address.
    pub closed spec fn host(&self) -> Seq<char> {
        self.server@
    }

    /// The server's connection tally.
    pub closed spec fn conns(&self) -> int {
        self.no_conn as int
    }

    pub fn new(server: String) -> (r: Self)
        ensures
            r.host() == server@,
            r.conns() == 0,
    {
        Self { server, no_conn: 0 }
    }

    /// The current connection tally.
    pub fn connections(&self) -> (r: usize)
        ensures
            r == self.conns(),
    {
        self.no_conn
    }

    /// Adds `uvalue` to the connection tally.
    pub fn update(&mut self, uvalue: usize)
        requires
            old(self).conns() + uvalue <= usize::MAX,
        ensures
            final(self).host() == old(self).host(),
            final(self).conns() == old(self).conns() + uvalue,
    {
        self.no_conn += uvalue;
    }
}

impl Default for Server {
    fn default() -> (r: Self)
        ensures
            r.host().len() == 0,
            r.conns() == 0,
    {
        proof {
            reveal_strlit("");
        }
        Server { server: "".to_owned(), no_conn: 0 }
    }
}

pub struct LeastConnectionsLoadBalancer {
    servers: Vec<Server>,
}

impl LeastConnectionsLoadBalancer {
    /// The server addresses, in list order.
    pub closed spec fn hosts(&self) -> Seq<Seq<char>> {
        self.servers@.map_values(|s: Server| s.host())
    }

    /// The connection tallies, in list order.
    pub closed spec fn conns(&self) -> Seq<int> {
        self.servers@.map_values(|s: Server| s.conns())
    }

    pub fn new(slist: Vec<String>) -> (r: Self)
        ensures
            r.hosts() == slist@.map_values(|s: String| s@),
            r.conns() == Seq::new(slist@.len(), |i: int| 0int),
    {
        let mut servers: Vec<Server> = Vec::new();
        let mut k: usize = 0;
        while k < slist.len()
            invariant
                k <= slist.len(),
                servers@.len() == k,
                forall|j: int| 0 <= j < k ==> servers@[j].host() == slist@[j]@ && servers@[j].conns() == 0,
            decreases slist.len() - k,
        {
            servers.push(Server::new(slist[k].clone()));
            k += 1;
        }
        let r = Self { servers };
        proof {
            assert(r.hosts() =~= slist@.map_values(|s: String| s@));
            assert(r.conns() =~= Seq::new(slist@.len(), |i: int| 0int));
        }
        r
    }

    /// Hands out the first server with the minimum connection tally — the
    /// lowest index wins a tie — counting the selection against it.
    pub fn next_server(&mut self) -> (r: String)
        requires
            old(self).conns().len() > 0,
            old(self).conns()[first_min_index(old(self).conns())] + 1 <= usize::MAX,
        ensures
            ({
                let s = first_min_index(old(self).conns());
                &&& r@ == old(self).hosts()[s]
                &&& final(self).hosts() == old(self).hosts()
                &&& final(self).conns() == old(self).conns().update(s, old(self).conns()[s] + 1)
            }),
    {
        let ghost counts = old(self).conns();
        let len = self.servers.len();
        let mut first = true;
        let mut min_conn: usize = 0;
        let mut min_index: usize = 0;
        let mut i: usize = 0;
        while i < len
            invariant
                *self == *old(self),
                len == self.servers@.len(),
                counts == self.conns(),
                i <= len,
                i == 0 ==> first,
                i > 0 ==> {
                    &&& !first
                    &&& min_index < i
                    &&& min_index as int == first_min_index(counts.take(i as int))
                    &&& min_conn as int == counts[min_index as int]
                },
            decreases len - i,
        {
            let wconn = self.servers[i].no_conn;
            if first || wconn < min_conn {
                min_conn = wconn;
                min_index = i;
            }
            first = false;
            proof {
                assert(counts.take(i as int + 1).drop_last() =~= counts.take(i as int));
                assert(counts.take(i as int + 1).last() == counts[i as int]);
            }
            i += 1;
        }
        proof {
            assert(counts.take(len as int) =~= counts);
        }
        let name = self.servers[min_index].server.clone();
        self.servers[min_index] = Server { server: name.clone(), no_conn: min_conn + 1 };
        proof {
            assert(self.hosts() =~= old(self).hosts());
            assert(self.conns() =~= old(self).conns().update(
                min_index as int,
                old(self).conns()[min_index as int] + 1,
            ));
        }
        name
    }
}

} // verus!
