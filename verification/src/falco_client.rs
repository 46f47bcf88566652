//! The client connection pool with repair.
//!
//! The pool tracks `N` entries, one per persistent connection the
//! embedding program holds open.  It selects an entry per request by
//! deterministic round robin, and on a broken pipe evicts the offending
//! entry by swap-with-last and books one fresh replacement, so the
//! caller's request can be re-dispatched without shrinking the pool.
//! The sockets themselves live with the embedding program; entries here
//! carry the identity and the per-entry timeout that govern them.

use vstd::prelude::*;

use crate::errors::FalcoError;
use crate::falco_pipeline::Var;

verus! {

/// The pool's default per-entry timeout, in microseconds.
pub const DEFAULT_POOL_TIMEOUT: usize = 1000000;

/// One pool entry: the identity of a live connection and the timeout it
/// was last configured with.
#[derive(Debug, Copy, Clone, PartialEq, Eq, Structural)]
pub struct PoolEntry {
    /// Never reused within one pool: replacements always get a fresh id.
    pub id: u64,
    /// Microseconds.
    pub timeout: usize,
}

/// The connection pool: the pipeline configuration shared by its
/// entries, the entry table, and the round-robin cursor.
pub struct FalcoClient {
    /// The pipeline configuration requests on this pool use.
    pub var: Var,
    entries: Vec<PoolEntry>,
    next_entry: u64,
    cursor: usize,
    timeout: usize,
    target_host: String,
    target_port: u16,
}

impl FalcoClient {
    /// The pipeline configuration requests on this pool use.
    pub closed spec fn spec_var(&self) -> Var {
        self.var
    }

    /// The entry table.
    pub closed spec fn spec_entries(&self) -> Seq<PoolEntry> {
        self.entries@
    }

    /// The number of live entries.
    pub open spec fn pool_len(&self) -> int {
        self.spec_entries().len() as int
    }

    /// The round-robin cursor: the index the next request will use.
    pub closed spec fn spec_cursor(&self) -> int {
        self.cursor as int
    }

    /// The id the next fresh entry will get.
    pub closed spec fn spec_next_entry(&self) -> u64 {
        self.next_entry
    }

    /// The pool-wide timeout new entries inherit, in microseconds.
    pub closed spec fn spec_timeout(&self) -> usize {
        self.timeout
    }

    /// Entry ids are distinct, all below the fresh-id counter, and the
    /// cursor stays inside the table.
    pub open spec fn wf(&self) -> bool {
        &&& (self.pool_len() > 0 ==> self.spec_cursor() < self.pool_len())
        &&& (self.pool_len() == 0 ==> self.spec_cursor() == 0)
        &&& 0 <= self.spec_cursor()
        &&& forall|i: int|
            0 <= i < self.pool_len() ==> #[trigger] self.spec_entries()[i].id
                < self.spec_next_entry()
        &&& forall|i: int, j: int|
            0 <= i < j < self.pool_len() ==> #[trigger] self.spec_entries()[i].id
                != #[trigger] self.spec_entries()[j].id
    }

    /// Build a pool of `clients` entries, ids `0` to `clients - 1`, each
    /// with the default timeout.  A pool of zero entries is an invalid
    /// configuration.
    pub fn new(clients: usize, parameters: Var, host: &str, port: u16) -> (r: Result<
        FalcoClient,
        FalcoError,
    >)
        requires
            parameters.wf(),
        ensures
            r matches Ok(p) ==> {
                &&& p.wf()
                &&& p.pool_len() == clients
                &&& p.spec_cursor() == 0
                &&& p.spec_next_entry() == clients
                &&& p.spec_timeout() == DEFAULT_POOL_TIMEOUT
                &&& p.spec_var() == parameters
                &&& p.spec_host() == host@
                &&& p.spec_port() == port
                &&& forall|i: int|
                    0 <= i < clients ==> #[trigger] p.spec_entries()[i] == (PoolEntry {
                        id: i as u64,
                        timeout: DEFAULT_POOL_TIMEOUT,
                    })
            },
            r is Err <==> clients == 0,
            r is Err ==> r == Result::<FalcoClient, FalcoError>::Err(
                FalcoError::InvalidConfiguration,
            ),
    {
        if clients == 0 {
            return Err(FalcoError::InvalidConfiguration);
        }
        let mut entries: Vec<PoolEntry> = Vec::new();
        let mut i: usize = 0;
        while i < clients
            invariant
                i <= clients,
                entries@.len() == i,
                forall|j: int|
                    0 <= j < i ==> #[trigger] entries@[j] == (PoolEntry {
                        id: j as u64,
                        timeout: DEFAULT_POOL_TIMEOUT,
                    }),
            decreases clients - i,
        {
            entries.push(PoolEntry { id: i as u64, timeout: DEFAULT_POOL_TIMEOUT });
            i = i + 1;
        }
        Ok(FalcoClient {
            var: parameters,
            entries,
            next_entry: clients as u64,
            cursor: 0,
            timeout: DEFAULT_POOL_TIMEOUT,
            target_host: host.to_owned(),
            target_port: port,
        })
    }

    /// The host this pool connects to.
    pub closed spec fn spec_host(&self) -> Seq<char> {
        self.target_host@
    }

    /// The port this pool connects to.
    pub closed spec fn spec_port(&self) -> u16 {
        self.target_port
    }

    /// The host this pool connects to.
    pub fn host(&self) -> (r: &String)
        ensures
            r@ == self.spec_host(),
    {
        &self.target_host
    }

    /// The port this pool connects to.
    pub fn port(&self) -> (r: u16)
        ensures
            r == self.spec_port(),
    {
        self.target_port
    }

    /// The number of live entries.
    pub fn len(&self) -> (r: usize)
        ensures
            r == self.pool_len(),
    {
        self.entries.len()
    }

    /// The entry at `i`.
    pub fn entry(&self, i: usize) -> (r: PoolEntry)
        requires
            i < self.pool_len(),
        ensures
            r == self.spec_entries()[i as int],
    {
        self.entries[i]
    }

    /// Select the entry for the next request: plain round robin.  The
    /// index returned is the cursor's old position; the cursor advances
    /// by one, wrapping at the pool's size.
    pub fn get_handle(&mut self) -> (idx: usize)
        requires
            old(self).wf(),
            old(self).pool_len() > 0,
        ensures
            final(self).wf(),
            idx == old(self).spec_cursor(),
            idx < old(self).pool_len(),
            final(self).spec_cursor() == (old(self).spec_cursor() + 1) % old(self).pool_len(),
            final(self).spec_entries() == old(self).spec_entries(),
            final(self).spec_next_entry() == old(self).spec_next_entry(),
            final(self).spec_timeout() == old(self).spec_timeout(),
            final(self).spec_var() == old(self).spec_var(),
    {
        let idx = self.cursor;
        let n = self.entries.len();
        proof {
            assert(self.cursor < n);
        }
        self.cursor = (self.cursor + 1) % n;
        idx
    }

    /// Remove the entry at `key` by swap-with-last: the last entry moves
    /// into its place and the table shrinks by one.  Order in the pool is
    /// not observable.
    pub fn evict(&mut self, key: usize) -> (gone: PoolEntry)
        requires
            old(self).wf(),
            key < old(self).pool_len(),
        ensures
            final(self).wf(),
            gone == old(self).spec_entries()[key as int],
            final(self).spec_entries() == old(self).spec_entries().update(
                key as int,
                old(self).spec_entries().last(),
            ).drop_last(),
            final(self).spec_next_entry() == old(self).spec_next_entry(),
            final(self).spec_timeout() == old(self).spec_timeout(),
            final(self).spec_var() == old(self).spec_var(),
    {
        let gone = self.entries.swap_remove(key);
        if self.entries.len() == 0 {
            self.cursor = 0;
        } else {
            self.cursor = self.cursor % self.entries.len();
        }
        gone
    }

    /// Book `count` fresh entries, each with a new id and the pool-wide
    /// timeout; the embedding program opens one connection per id.  Fails
    /// only when the id space is exhausted, which leaves the pool
    /// unchanged.
    pub fn generate(&mut self, count: usize) -> (r: Result<(), FalcoError>)
        requires
            old(self).wf(),
        ensures
            final(self).wf(),
            r is Ok ==> {
                &&& final(self).pool_len() == old(self).pool_len() + count
                &&& final(self).spec_entries().subrange(0, old(self).pool_len()) == old(
                    self,
                ).spec_entries()
                &&& forall|j: int|
                    old(self).pool_len() <= j < final(self).pool_len()
                        ==> #[trigger] final(self).spec_entries()[j] == (PoolEntry {
                        id: (old(self).spec_next_entry() + (j - old(self).pool_len())) as u64,
                        timeout: old(self).spec_timeout(),
                    })
            },
            r is Err <==> count > u64::MAX - old(self).spec_next_entry(),
            r is Err ==> r == Result::<(), FalcoError>::Err(FalcoError::PoolExhausted)
                && *final(self) == *old(self),
            final(self).spec_timeout() == old(self).spec_timeout(),
            final(self).spec_var() == old(self).spec_var(),
    {
        if count as u64 > u64::MAX - self.next_entry {
            return Err(FalcoError::PoolExhausted);
        }
        let ghost old_entries = self.entries@;
        let ghost old_len = self.entries@.len() as int;
        let ghost old_next = self.next_entry;
        let mut i: usize = 0;
        while i < count
            invariant
                i <= count,
                count <= u64::MAX - old_next,
                self.next_entry == old_next + i,
                self.entries@.len() == old_len + i,
                self.entries@.subrange(0, old_len) == old_entries,
                forall|j: int| 0 <= j < old_len ==> #[trigger] self.entries@[j] == old_entries[j],
                self.cursor == old(self).cursor,
                self.timeout == old(self).spec_timeout(),
                self.var == old(self).var,
                self.target_host == old(self).target_host,
                self.target_port == old(self).target_port,
                old(self).wf(),
                old_entries == old(self).spec_entries(),
                old_len == old(self).pool_len(),
                old_next == old(self).spec_next_entry(),
                forall|j: int|
                    old_len <= j < old_len + i ==> #[trigger] self.entries@[j] == (PoolEntry {
                        id: (old_next + (j - old_len)) as u64,
                        timeout: old(self).spec_timeout(),
                    }),
            decreases count - i,
        {
            self.entries.push(PoolEntry { id: self.next_entry, timeout: self.timeout });
            self.next_entry = self.next_entry + 1;
            i = i + 1;
            proof {
                assert(self.entries@.subrange(0, old_len) =~= old_entries);
            }
        }
        proof {
            assert forall|a: int, b: int|
                0 <= a < b < self.entries@.len() implies #[trigger] self.entries@[a].id
                != #[trigger] self.entries@[b].id by {
                if a < old_len {
                    assert(self.entries@[a] == old_entries[a]);
                }
                if b < old_len {
                    assert(self.entries@[b] == old_entries[b]);
                }
            }
        }
        Ok(())
    }

    /// Broken-pipe mitigation: evict the entry at `key` and book one
    /// replacement with a fresh id, so the pool keeps its size and the
    /// caller can re-dispatch the request.  On success the result is the
    /// replacement's id, which no evicted or surviving entry ever had.
    pub fn mitigate(&mut self, key: usize) -> (r: Result<u64, FalcoError>)
        requires
            old(self).wf(),
            key < old(self).pool_len(),
        ensures
            final(self).wf(),
            r matches Ok(id) ==> {
                &&& id == old(self).spec_next_entry()
                &&& forall|i: int|
                    0 <= i < old(self).pool_len() ==> #[trigger] old(self).spec_entries()[i].id
                        != id
                &&& final(self).pool_len() == old(self).pool_len()
                &&& final(self).spec_entries() == old(self).spec_entries().update(
                    key as int,
                    old(self).spec_entries().last(),
                ).drop_last().push(
                    PoolEntry { id, timeout: old(self).spec_timeout() },
                )
            },
            r is Err <==> old(self).spec_next_entry() == u64::MAX,
            r is Err ==> r == Result::<u64, FalcoError>::Err(FalcoError::PoolExhausted),
            final(self).spec_timeout() == old(self).spec_timeout(),
            final(self).spec_var() == old(self).spec_var(),
    {
        let ghost pre = *old(self);
        self.evict(key);
        let id = self.next_entry;
        match self.generate(1) {
            Ok(()) => {
                proof {
                    assert(final(self).spec_entries() =~= pre.spec_entries().update(
                        key as int,
                        pre.spec_entries().last(),
                    ).drop_last().push(PoolEntry { id, timeout: pre.spec_timeout() }));
                }
                Ok(id)
            },
            Err(e) => Err(e),
        }
    }

    /// The retry rule of `request`: a broken pipe with mitigation budget
    /// left is repaired once and retried with the budget decremented;
    /// anything else surfaces to the caller.
    pub fn plan_after_failure(broken_pipe: bool, allow_mitigation: u8) -> (r: Option<u8>)
        ensures
            r is Some <==> (broken_pipe && allow_mitigation > 0),
            r matches Some(budget) ==> budget == allow_mitigation - 1,
    {
        if broken_pipe && allow_mitigation > 0 {
            Some(allow_mitigation - 1)
        } else {
            None
        }
    }

    /// Set the pool timeout and push it to every live entry.
    pub fn set_timeout(&mut self, new_timeout: usize)
        requires
            old(self).wf(),
        ensures
            final(self).wf(),
            final(self).spec_timeout() == new_timeout,
            final(self).pool_len() == old(self).pool_len(),
            forall|i: int|
                0 <= i < old(self).pool_len() ==> #[trigger] final(self).spec_entries()[i]
                    == (PoolEntry { id: old(self).spec_entries()[i].id, timeout: new_timeout }),
            final(self).spec_cursor() == old(self).spec_cursor(),
            final(self).spec_next_entry() == old(self).spec_next_entry(),
            final(self).spec_var() == old(self).spec_var(),
    {
        self.timeout = new_timeout;
        let n = self.entries.len();
        let mut i: usize = 0;
        while i < n
            invariant
                i <= n,
                n == self.entries@.len(),
                self.timeout == new_timeout,
                self.cursor == old(self).cursor,
                self.next_entry == old(self).spec_next_entry(),
                self.var == old(self).var,
                self.target_host == old(self).target_host,
                self.target_port == old(self).target_port,
                old(self).wf(),
                n == old(self).pool_len(),
                forall|j: int|
                    0 <= j < i ==> #[trigger] self.entries@[j] == (PoolEntry {
                        id: old(self).spec_entries()[j].id,
                        timeout: new_timeout,
                    }),
                forall|j: int|
                    i <= j < n ==> #[trigger] self.entries@[j] == old(self).spec_entries()[j],
            decreases n - i,
        {
            let id = self.entries[i].id;
            self.entries.set(i, PoolEntry { id, timeout: new_timeout });
            i = i + 1;
        }
    }

    /// Set only the pool-wide timeout that future entries inherit,
    /// leaving live entries as they are.
    pub fn cheap_set_timeout(&mut self, new_timeout: usize)
        requires
            old(self).wf(),
        ensures
            final(self).wf(),
            final(self).spec_timeout() == new_timeout,
            final(self).spec_entries() == old(self).spec_entries(),
            final(self).spec_cursor() == old(self).spec_cursor(),
            final(self).spec_next_entry() == old(self).spec_next_entry(),
            final(self).spec_var() == old(self).spec_var(),
    {
        self.timeout = new_timeout;
    }
}

/// Round-robin coverage: starting from cursor `c0`, any run of `m`
/// consecutive selections over a pool of `n` entries reaches every index
/// `k` as soon as `m >= n`.  In particular, with `n >= 2` and more than
/// `n` sequential requests, every entry services at least one request.
pub proof fn lemma_round_robin_coverage(c0: int, m: int, n: int, k: int)
    requires
        n >= 1,
        m >= n,
        0 <= k < n,
        0 <= c0 < n,
    ensures
        exists|i: int| 0 <= i < m && #[trigger] ((c0 + i) % n) == k,
{
    let i = if k >= c0 {
        k - c0
    } else {
        k - c0 + n
    };
    assert(0 <= i < n);
    if k >= c0 {
        vstd::arithmetic::div_mod::lemma_small_mod(k as nat, n as nat);
        assert((c0 + i) % n == k);
    } else {
        vstd::arithmetic::div_mod::lemma_mod_multiples_vanish(1, k, n);
        assert((c0 + i) % n == (n * 1 + k) % n);
        vstd::arithmetic::div_mod::lemma_small_mod(k as nat, n as nat);
        assert((c0 + i) % n == k);
    }
}

} // verus!
