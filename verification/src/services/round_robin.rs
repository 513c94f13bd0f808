//! A standalone round-robin balancer over a plain list of server addresses.

use vstd::prelude::*;

verus! {

pub struct RoundRobinLoadBalancer {
    servers: Vec<String>,
    current_index: usize,
}

impl RoundRobinLoadBalancer {
    /// The server addresses, in list order.
    pub closed spec fn hosts(&self) -> Seq<Seq<char>> {
        self.servers@.map_values(|s: String| s@)
    }

    /// The index of the next server to hand out.
    pub closed spec fn cursor(&self) -> int {
        self.current_index as int
    }

    pub fn new(servers: Vec<String>) -> (r: Self)
        ensures
            r.hosts() == servers@.map_values(|s: String| s@),
            r.cursor() == 0,
    {
        Self { servers, current_index: 0 }
    }

    /// Hands out the server under the cursor and advances the cursor by one,
    /// wrapping at the end of the list.
    pub fn next_server(&mut self) -> (r: String)
        requires
            old(self).hosts().len() > 0,
            0 <= old(self).cursor() < old(self).hosts().len(),
        ensures
            r@ == old(self).hosts()[old(self).cursor()],
            final(self).hosts() == old(self).hosts(),
            final(self).cursor() == (old(self).cursor() + 1) % (old(self).hosts().len() as int),
    {
        let len = self.servers.len();
        let server = self.servers[self.current_index].clone();
        self.current_index = (self.current_index + 1) % len;
        server
    }
}

} // verus!
