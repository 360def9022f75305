use vstd::prelude::*;

use crate::links::{Link, LinkView};
use crate::state::UrlState;
use crate::urls::{host_of, host_of_text, parse_spec, parse_url, text_eq};

verus! {

/// The number of workers a crawl runs with by default.
pub const THREADS: usize = 20;

/// The link index after committing `records` in order: each record that
/// resolved is indexed under its resolved address, a later record
/// overwriting an earlier one with the same resolved address.
pub open spec fn index_after(
    m: Map<Seq<char>, LinkView>,
    records: Seq<LinkView>,
) -> Map<Seq<char>, LinkView>
    decreases records.len(),
{
    if records.len() == 0 {
        m
    } else {
        let prev = index_after(m, records.drop_last());
        match records.last().resolved {
            Some(t) => prev.insert(t, records.last()),
            None => prev,
        }
    }
}

/// The addresses that committing `records` enqueues, in order: the resolved
/// addresses whose host is the crawl domain. Off-domain addresses are
/// recorded but never enqueued.
pub open spec fn enqueued(records: Seq<LinkView>, domain: Seq<char>) -> Seq<Seq<char>>
    decreases records.len(),
{
    if records.len() == 0 {
        Seq::empty()
    } else {
        enqueued(records.drop_last(), domain) + (match records.last().resolved {
            Some(t) => if host_of(t) == Some(domain) {
                seq![t]
            } else {
                Seq::empty()
            },
            None => Seq::empty(),
        })
    }
}

/// What a worker is to do after one claim attempt: stop because the crawl
/// is finished, try again because other workers may still produce work, or
/// check the address it was handed.
#[derive(Debug)]
pub enum WorkerCommand {
    Exit,
    Retry,
    Check(String),
}

/// The worker counters, updated together: how many workers are busy now,
/// and (as ghost history) how many claims have ever been entered and how
/// many have been committed.
struct Activity {
    active: usize,
    entered: Ghost<nat>,
    left: Ghost<nat>,
}

/// The shared crawl state: the pending frontier, the set of addresses
/// already claimed, the busy-worker counters, and the index of discovered
/// link records keyed by resolved address.
pub struct Ledger {
    domain: String,
    pool_size: usize,
    pending: Vec<String>,
    visited: Vec<String>,
    activity: Activity,
    links: Vec<Link>,
}

impl Ledger {
    #[verifier::type_invariant]
    spec fn inv(&self) -> bool {
        &&& self.activity.active <= self.pool_size
        &&& self.activity.left@ <= self.activity.entered@
        &&& self.activity.entered@ == self.activity.left@ + self.activity.active as nat
        &&& forall|i: int|
            0 <= i < self.pending@.len() ==> host_of(#[trigger] self.pending@[i]@) == Some(
                self.domain@,
            )
        &&& forall|i: int|
            0 <= i < self.visited@.len() ==> host_of(#[trigger] self.visited@[i]@) == Some(
                self.domain@,
            )
    }

    /// The crawl domain.
    pub closed spec fn domain_view(&self) -> Seq<char> {
        self.domain@
    }

    /// The bound on the number of simultaneously busy workers.
    pub closed spec fn pool(&self) -> int {
        self.pool_size as int
    }

    /// The addresses awaiting a visit, oldest first.
    pub closed spec fn pending_view(&self) -> Seq<Seq<char>> {
        self.pending.deep_view()
    }

    /// The addresses ever claimed for processing.
    pub closed spec fn visited_view(&self) -> Set<Seq<char>> {
        self.visited.deep_view().to_set()
    }

    /// How many workers are busy between claiming and committing.
    pub closed spec fn active_count(&self) -> int {
        self.activity.active as int
    }

    /// How many claims have ever been entered.
    pub closed spec fn claimed_total(&self) -> nat {
        self.activity.entered@
    }

    /// How many claims have been fully committed.
    pub closed spec fn committed_total(&self) -> nat {
        self.activity.left@
    }

    /// The discovered link records, keyed by resolved address.
    pub closed spec fn link_index(&self) -> Map<Seq<char>, LinkView> {
        index_after(Map::empty(), self.links@.map_values(|l: Link| l@))
    }

    /// The crawl is structurally finished: nothing is pending and no worker
    /// is busy.
    pub open spec fn done_spec(&self) -> bool {
        self.pending_view().len() == 0 && self.active_count() == 0
    }

    fn new(domain: String, seed: String, pool_size: usize) -> (r: Ledger)
        requires
            host_of(seed@) == Some(domain@),
        ensures
            r.domain_view() == domain@,
            r.pool() == pool_size as int,
            r.pending_view() == seq![seed@],
            r.visited_view() == Set::<Seq<char>>::empty(),
            r.active_count() == 0,
            r.claimed_total() == 0nat,
            r.committed_total() == 0nat,
            r.link_index() == Map::<Seq<char>, LinkView>::empty(),
    {
        let mut pending: Vec<String> = Vec::new();
        pending.push(seed);
        let r = Ledger {
            domain,
            pool_size,
            pending,
            visited: Vec::new(),
            activity: Activity { active: 0, entered: Ghost(0nat), left: Ghost(0nat) },
            links: Vec::new(),
        };
        proof {
            assert(r.pending_view() =~= seq![seed@]);
            assert(r.visited_view() =~= Set::<Seq<char>>::empty());
            assert(r.link_index() =~= Map::<Seq<char>, LinkView>::empty());
        }
        r
    }

    /// Removes and returns one pending address, or reports that nothing is
    /// currently pending (which is distinct from the crawl being finished).
    pub fn claim_next(&mut self) -> (r: Option<String>)
        ensures
            final(self).domain_view() == old(self).domain_view(),
            final(self).pool() == old(self).pool(),
            final(self).visited_view() == old(self).visited_view(),
            final(self).active_count() == old(self).active_count(),
            final(self).claimed_total() == old(self).claimed_total(),
            final(self).committed_total() == old(self).committed_total(),
            final(self).link_index() == old(self).link_index(),
            match r {
                Some(a) => {
                    &&& old(self).pending_view().len() > 0
                    &&& a@ == old(self).pending_view().last()
                    &&& final(self).pending_view() == old(self).pending_view().drop_last()
                    &&& host_of(a@) == Some(old(self).domain_view())
                },
                None => {
                    &&& old(self).pending_view().len() == 0
                    &&& final(self).pending_view() == old(self).pending_view()
                },
            },
    {
        proof {
            use_type_invariant(&*self);
        }
        let mut p: Vec<String> = Vec::new();
        core::mem::swap(&mut p, &mut self.pending);
        let r = p.pop();
        self.pending = p;
        proof {
            if old(self).pending@.len() > 0 {
                assert(final(self).pending_view() =~= old(self).pending_view().drop_last());
            } else {
                assert(final(self).pending_view() =~= old(self).pending_view());
            }
        }
        r
    }

    /// Claims `addr` for processing. The first call for a given address
    /// returns true and records the claim; every later call for the same
    /// address returns false, however many workers race for it, since all
    /// calls are serialized on the ledger.
    pub fn try_claim(&mut self, addr: &String) -> (r: bool)
        requires
            host_of(addr@) == Some(old(self).domain_view()),
        ensures
            final(self).domain_view() == old(self).domain_view(),
            final(self).pool() == old(self).pool(),
            final(self).pending_view() == old(self).pending_view(),
            final(self).active_count() == old(self).active_count(),
            final(self).claimed_total() == old(self).claimed_total(),
            final(self).committed_total() == old(self).committed_total(),
            final(self).link_index() == old(self).link_index(),
            r == !old(self).visited_view().contains(addr@),
            final(self).visited_view() == old(self).visited_view().insert(addr@),
    {
        proof {
            use_type_invariant(&*self);
        }
        let mut i: usize = 0;
        let mut found = false;
        while i < self.visited.len()
            invariant
                i <= self.visited@.len(),
                found == exists|j: int| 0 <= j < i && #[trigger] self.visited@[j]@ == addr@,
            decreases self.visited@.len() - i,
        {
            if text_eq(self.visited[i].as_str(), addr.as_str()) {
                found = true;
            }
            i = i + 1;
        }
        proof {
            let dv = self.visited.deep_view();
            if found {
                let j = choose|j: int|
                    0 <= j < self.visited@.len() && #[trigger] self.visited@[j]@ == addr@;
                assert(dv[j] == addr@);
                assert(dv.contains(addr@));
            } else if dv.contains(addr@) {
                let j = choose|j: int| 0 <= j < dv.len() && #[trigger] dv[j] == addr@;
                assert(self.visited@[j]@ == addr@);
                assert(false);
            }
            assert(found == old(self).visited_view().contains(addr@));
        }
        if found {
            proof {
                assert(final(self).visited_view() =~= old(self).visited_view().insert(addr@));
            }
            false
        } else {
            let mut v: Vec<String> = Vec::new();
            core::mem::swap(&mut v, &mut self.visited);
            v.push(addr.clone());
            self.visited = v;
            proof {
                assert(self.visited.deep_view() =~= old(self).visited.deep_view().push(addr@));
                old(self).visited.deep_view().lemma_push_to_set_commute(addr@);
                assert(final(self).visited_view() =~= old(self).visited_view().insert(addr@));
            }
            true
        }
    }

    /// Marks one more worker busy. Called when a worker has just claimed an
    /// address and is about to begin its check.
    pub fn enter_active(&mut self)
        requires
            old(self).active_count() < old(self).pool(),
        ensures
            final(self).domain_view() == old(self).domain_view(),
            final(self).pool() == old(self).pool(),
            final(self).pending_view() == old(self).pending_view(),
            final(self).visited_view() == old(self).visited_view(),
            final(self).link_index() == old(self).link_index(),
            final(self).active_count() == old(self).active_count() + 1,
            final(self).claimed_total() == old(self).claimed_total() + 1,
            final(self).committed_total() == old(self).committed_total(),
    {
        proof {
            use_type_invariant(&*self);
        }
        self.activity = Activity {
            active: self.activity.active + 1,
            entered: Ghost(self.activity.entered@ + 1),
            left: self.activity.left,
        };
    }

    /// Marks one busy worker idle again. Called only after every side
    /// effect of the worker's claim has been committed to the ledger.
    pub fn exit_active(&mut self)
        requires
            old(self).active_count() > 0,
        ensures
            final(self).domain_view() == old(self).domain_view(),
            final(self).pool() == old(self).pool(),
            final(self).pending_view() == old(self).pending_view(),
            final(self).visited_view() == old(self).visited_view(),
            final(self).link_index() == old(self).link_index(),
            final(self).active_count() == old(self).active_count() - 1,
            final(self).claimed_total() == old(self).claimed_total(),
            final(self).committed_total() == old(self).committed_total() + 1,
    {
        proof {
            use_type_invariant(&*self);
        }
        self.activity = Activity {
            active: self.activity.active - 1,
            entered: self.activity.entered,
            left: Ghost(self.activity.left@ + 1),
        };
    }

    /// True exactly when the pending frontier is empty and no worker is
    /// busy, read as one consistent snapshot. While any claim is still
    /// uncommitted this returns false, and when it returns true every claim
    /// ever entered has been committed: no outcome is lost.
    pub fn is_done(&self) -> (r: bool)
        ensures
            r == self.done_spec(),
            r ==> self.claimed_total() == self.committed_total(),
    {
        proof {
            use_type_invariant(&*self);
        }
        self.pending.len() == 0 && self.activity.active == 0
    }

    /// The crawl domain, as text.
    pub fn domain_name(&self) -> (r: &String)
        ensures
            r@ == self.domain_view(),
    {
        &self.domain
    }

    /// How many workers are busy right now.
    pub fn active_workers(&self) -> (r: usize)
        ensures
            r as int == self.active_count(),
    {
        self.activity.active
    }

    /// The bound on busy workers that the ledger was created with.
    pub fn worker_pool(&self) -> (r: usize)
        ensures
            r as int == self.pool(),
    {
        self.pool_size
    }

    /// Commits the link records discovered on one page as one combined
    /// step: every record that resolved is indexed under its resolved
    /// address, a later record overwriting an earlier one with the same
    /// address, and the resolved addresses whose host is the crawl domain
    /// are appended to the pending frontier. Both are visible together, so
    /// no reader ever observes an enqueued address without its record.
    pub fn record_links(&mut self, records: Vec<Link>)
        ensures
            final(self).domain_view() == old(self).domain_view(),
            final(self).pool() == old(self).pool(),
            final(self).visited_view() == old(self).visited_view(),
            final(self).active_count() == old(self).active_count(),
            final(self).claimed_total() == old(self).claimed_total(),
            final(self).committed_total() == old(self).committed_total(),
            final(self).link_index() == index_after(
                old(self).link_index(),
                records@.map_values(|l: Link| l@),
            ),
            final(self).pending_view() == old(self).pending_view() + enqueued(
                records@.map_values(|l: Link| l@),
                old(self).domain_view(),
            ),
    {
        proof {
            use_type_invariant(&*self);
        }
        let ghost rviews = records@.map_values(|l: Link| l@);
        let ghost dom = old(self).domain_view();
        let mut p: Vec<String> = Vec::new();
        core::mem::swap(&mut p, &mut self.pending);
        let mut ls: Vec<Link> = Vec::new();
        core::mem::swap(&mut ls, &mut self.links);
        let mut i: usize = 0;
        while i < records.len()
            invariant
                i <= records@.len(),
                rviews == records@.map_values(|l: Link| l@),
                rviews.len() == records@.len(),
                dom == self.domain@,
                p.deep_view() == old(self).pending_view() + enqueued(
                    rviews.take(i as int),
                    dom,
                ),
                forall|j: int| 0 <= j < p@.len() ==> host_of(#[trigger] p@[j]@) == Some(dom),
                index_after(Map::empty(), ls@.map_values(|l: Link| l@)) == index_after(
                    old(self).link_index(),
                    rviews.take(i as int),
                ),
            decreases records@.len() - i,
        {
            let ghost prev_p = p.deep_view();
            let ghost prev_ls = ls@.map_values(|l: Link| l@);
            let ghost idx = i as int;
            let record = &records[i];
            proof {
                assert(rviews.take(idx + 1).drop_last() =~= rviews.take(idx));
                assert(rviews.take(idx + 1).last() == records@[idx]@);
            }
            match &record.resolved {
                Some(t) => {
                    let on_domain = match host_of_text(t.as_str()) {
                        Some(h) => text_eq(h.as_str(), self.domain.as_str()),
                        None => false,
                    };
                    if on_domain {
                        p.push(t.clone());
                        proof {
                            assert(records@[idx]@.resolved == Some(t@));
                            assert(p.deep_view() =~= prev_p.push(t@));
                            assert(enqueued(rviews.take(idx + 1), dom) =~= enqueued(
                                rviews.take(idx),
                                dom,
                            ).push(t@));
                            assert(p.deep_view() =~= old(self).pending_view() + enqueued(
                                rviews.take(idx + 1),
                                dom,
                            ));
                        }
                    } else {
                        proof {
                            assert(records@[idx]@.resolved == Some(t@));
                            assert(enqueued(rviews.take(idx + 1), dom) =~= enqueued(
                                rviews.take(idx),
                                dom,
                            ));
                        }
                    }
                },
                None => {
                    proof {
                        assert(records@[idx]@.resolved is None);
                        assert(enqueued(rviews.take(idx + 1), dom) =~= enqueued(
                            rviews.take(idx),
                            dom,
                        ));
                    }
                },
            }
            ls.push(record.clone());
            i = i + 1;
            proof {
                assert(p.deep_view() =~= old(self).pending_view() + enqueued(
                    rviews.take(i as int),
                    dom,
                ));
                assert(ls@.map_values(|l: Link| l@) =~= prev_ls.push(records@[idx]@));
                assert(prev_ls.push(records@[idx]@).drop_last() =~= prev_ls);
                assert(prev_ls.push(records@[idx]@).last() == records@[idx]@);
                assert(index_after(Map::empty(), ls@.map_values(|l: Link| l@)) =~= index_after(
                    old(self).link_index(),
                    rviews.take(i as int),
                ));
            }
        }
        self.pending = p;
        self.links = ls;
        proof {
            assert(rviews.take(records@.len() as int) =~= rviews);
        }
    }

    /// Looks up the link record indexed under `addr`: the most recently
    /// committed record that resolved to `addr`, present only if `addr` was
    /// discovered via a link rather than being the seed.
    pub fn lookup_link(&self, addr: &str) -> (r: Option<&Link>)
        ensures
            match r {
                Some(l) => self.link_index().contains_key(addr@) && l@ == self.link_index()[addr@]
                    && l@.resolved == Some(addr@),
                None => !self.link_index().contains_key(addr@),
            },
    {
        let ghost s = self.links@.map_values(|l: Link| l@);
        let mut i: usize = self.links.len();
        proof {
            assert(s.take(i as int) =~= s);
        }
        while i > 0
            invariant
                i <= self.links@.len(),
                s == self.links@.map_values(|l: Link| l@),
                s.len() == self.links@.len(),
                self.link_index().contains_key(addr@) <==> index_after(
                    Map::empty(),
                    s.take(i as int),
                ).contains_key(addr@),
                self.link_index().contains_key(addr@) ==> self.link_index()[addr@]
                    == index_after(Map::empty(), s.take(i as int))[addr@],
            decreases i,
        {
            i = i - 1;
            let ghost prefix = s.take(i as int + 1);
            proof {
                assert(prefix.drop_last() =~= s.take(i as int));
                assert(prefix.last() == self.links@[i as int]@);
            }
            let hit = match &self.links[i].resolved {
                Some(t) => text_eq(t.as_str(), addr),
                None => false,
            };
            if hit {
                proof {
                    lemma_index_consistent(Map::empty(), s, addr@);
                }
                return Some(&self.links[i]);
            }
        }
        proof {
            assert(s.take(0) =~= Seq::<LinkView>::empty());
        }
        None
    }

    /// Attaches to a check outcome the link record the Result Stream
    /// reports with it: the record for the address of an error-status
    /// outcome — one that resolved to exactly that address — and nothing
    /// for every other outcome.
    pub fn attach_link(&self, state: &UrlState) -> (r: Option<&Link>)
        ensures
            match state {
                UrlState::BadStatus(u, _) => (match r {
                    Some(l) => self.link_index().contains_key(u@) && l@ == self.link_index()[u@]
                        && l@.resolved == Some(u@),
                    None => !self.link_index().contains_key(u@),
                }),
                _ => r is None,
            },
    {
        match state {
            UrlState::BadStatus(u, _) => self.lookup_link(u.as_str()),
            _ => None,
        }
    }

    /// One claim attempt of the worker loop, as a single step on the
    /// ledger: take a pending address; when nothing is pending, exit if the
    /// crawl is structurally finished and retry otherwise; when the taken
    /// address was already claimed once, give the attempt up; otherwise
    /// claim it, become busy and hand it out for checking. A given address
    /// is handed out at most once over the whole crawl, and only addresses
    /// on the crawl domain are ever handed out.
    pub fn worker_claim(&mut self) -> (r: WorkerCommand)
        requires
            old(self).active_count() < old(self).pool(),
        ensures
            final(self).domain_view() == old(self).domain_view(),
            final(self).pool() == old(self).pool(),
            final(self).link_index() == old(self).link_index(),
            final(self).committed_total() == old(self).committed_total(),
            old(self).visited_view().subset_of(final(self).visited_view()),
            match r {
                WorkerCommand::Exit => {
                    &&& old(self).done_spec()
                    &&& final(self).pending_view() == old(self).pending_view()
                    &&& final(self).visited_view() == old(self).visited_view()
                    &&& final(self).active_count() == old(self).active_count()
                    &&& final(self).claimed_total() == old(self).claimed_total()
                },
                WorkerCommand::Retry => {
                    &&& final(self).visited_view() == old(self).visited_view()
                    &&& final(self).active_count() == old(self).active_count()
                    &&& final(self).claimed_total() == old(self).claimed_total()
                    &&& ((old(self).pending_view().len() == 0 && old(self).active_count() > 0
                        && final(self).pending_view() == old(self).pending_view()) || (old(
                        self,
                    ).pending_view().len() > 0 && old(self).visited_view().contains(
                        old(self).pending_view().last(),
                    ) && final(self).pending_view() == old(self).pending_view().drop_last()))
                },
                WorkerCommand::Check(a) => {
                    &&& old(self).pending_view().len() > 0
                    &&& a@ == old(self).pending_view().last()
                    &&& !old(self).visited_view().contains(a@)
                    &&& host_of(a@) == Some(old(self).domain_view())
                    &&& final(self).pending_view() == old(self).pending_view().drop_last()
                    &&& final(self).visited_view() == old(self).visited_view().insert(a@)
                    &&& final(self).active_count() == old(self).active_count() + 1
                    &&& final(self).claimed_total() == old(self).claimed_total() + 1
                },
            },
    {
        match self.claim_next() {
            None => {
                if self.is_done() {
                    WorkerCommand::Exit
                } else {
                    WorkerCommand::Retry
                }
            },
            Some(addr) => {
                if self.try_claim(&addr) {
                    self.enter_active();
                    WorkerCommand::Check(addr)
                } else {
                    proof {
                        assert(old(self).visited_view().insert(addr@) =~= old(
                            self,
                        ).visited_view());
                    }
                    WorkerCommand::Retry
                }
            },
        }
    }
}

/// Opens a crawl from `seed`: when the seed is an absolute address with a
/// domain-name host, a fresh ledger whose domain is that host and whose
/// frontier holds exactly the seed; otherwise the one malformed outcome the
/// crawl reports before finishing immediately, with no address claimed.
pub fn start_crawl(seed: &str, pool_size: usize) -> (r: Result<Ledger, UrlState>)
    ensures
        match r {
            Ok(l) => {
                &&& (match parse_spec(seed@) {
                    Some(t) => host_of(t) == Some(l.domain_view()) && l.pending_view() == seq![t],
                    None => false,
                })
                &&& l.pool() == pool_size as int
                &&& l.visited_view() == Set::<Seq<char>>::empty()
                &&& l.active_count() == 0
                &&& l.claimed_total() == 0nat
                &&& l.committed_total() == 0nat
                &&& l.link_index() == Map::<Seq<char>, LinkView>::empty()
            },
            Err(s) => {
                &&& (s matches UrlState::Malformed(t) && t@ == seed@)
                &&& (match parse_spec(seed@) {
                    Some(t) => host_of(t) is None,
                    None => true,
                })
            },
        },
{
    match parse_url(seed) {
        Some(parts) => match parts.host {
            Some(h) => Ok(Ledger::new(h, parts.text, pool_size)),
            None => Err(UrlState::Malformed(seed.to_string())),
        },
        None => Err(UrlState::Malformed(seed.to_string())),
    }
}

/// A granted claim is permanent. When `tryClaim(a)` has returned true the
/// visited set holds `a` from then on: every later ledger state grows the
/// visited set, so it still holds `a`, and a later `tryClaim(a)` — whose
/// result is exactly the absence of `a` — returns false. A given address is
/// claimed at most once over the whole crawl.
pub proof fn lemma_claim_granted_once(
    granted: Set<Seq<char>>,
    later: Set<Seq<char>>,
    a: Seq<char>,
)
    requires
        granted.insert(a).subset_of(later),
    ensures
        later.contains(a),
{
}

/// Only addresses on the crawl domain are ever enqueued: an off-domain
/// discovered address never enters the pending frontier, and so is never
/// claimed or visited.
pub proof fn lemma_enqueued_on_domain(records: Seq<LinkView>, domain: Seq<char>, a: Seq<char>)
    requires
        enqueued(records, domain).contains(a),
    ensures
        host_of(a) == Some(domain),
    decreases records.len(),
{
    if records.len() > 0 {
        let prefix = enqueued(records.drop_last(), domain);
        if prefix.contains(a) {
            lemma_enqueued_on_domain(records.drop_last(), domain, a);
        } else {
            let i = choose|i: int|
                0 <= i < enqueued(records, domain).len() && enqueued(records, domain)[i] == a;
            assert(i >= prefix.len());
        }
    }
}

/// Every address that committing `records` enqueues has a record available
/// in the updated index under exactly that address: an enqueued address is
/// never observed without its link record.
pub proof fn lemma_enqueued_indexed(
    m: Map<Seq<char>, LinkView>,
    records: Seq<LinkView>,
    domain: Seq<char>,
    a: Seq<char>,
)
    requires
        enqueued(records, domain).contains(a),
    ensures
        index_after(m, records).contains_key(a),
    decreases records.len(),
{
    if records.len() > 0 {
        let prefix = enqueued(records.drop_last(), domain);
        if prefix.contains(a) {
            lemma_enqueued_indexed(m, records.drop_last(), domain, a);
        } else {
            let i = choose|i: int|
                0 <= i < enqueued(records, domain).len() && enqueued(records, domain)[i] == a;
            assert(i >= prefix.len());
            assert(records.last().resolved == Some(a));
        }
    }
}

/// Every record available in the updated index is indexed under its own
/// resolved address: a record looked up for an erroring address resolved to
/// exactly that address.
pub proof fn lemma_index_consistent(
    m: Map<Seq<char>, LinkView>,
    records: Seq<LinkView>,
    a: Seq<char>,
)
    requires
        forall|k: Seq<char>| m.contains_key(k) ==> (#[trigger] m[k]).resolved == Some(k),
        index_after(m, records).contains_key(a),
    ensures
        index_after(m, records)[a].resolved == Some(a),
    decreases records.len(),
{
    if records.len() > 0 {
        if index_after(m, records)[a] == records.last() && records.last().resolved == Some(a) {
        } else {
            lemma_index_consistent(m, records.drop_last(), a);
        }
    }
}

} // verus!
