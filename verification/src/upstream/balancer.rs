//! How the next target of an upstream is picked.

use std::collections::hash_map::DefaultHasher;
use std::hash::{Hash, Hasher};

use vstd::prelude::*;
use vstd::std_specs::hash::*;

use crate::text::str_eq;

verus! {

/// One server behind an upstream.
#[derive(Debug, Clone)]
pub struct Target {
    /// Where it is.
    pub url: String,
    /// Whether its last probe found it in order.
    pub alive: bool,
    /// How many connections to it are open, where they are counted.
    pub active: usize,
}

impl Target {
    /// A target that counts as alive and has no connections yet.
    pub fn new(url: String) -> (r: Target)
        ensures
            r == (Target { url, alive: true, active: 0 }),
    {
        Target { url, alive: true, active: 0 }
    }

    /// Whether the target may be picked.
    pub fn is_alive(&self) -> (r: bool)
        ensures
            r == self.alive,
    {
        self.alive
    }
}

/// The targets that are alive, in their order.
pub open spec fn live(targets: Seq<Target>) -> Seq<Target>
    decreases targets.len(),
{
    if targets.len() == 0 {
        seq![]
    } else if targets.last().alive {
        live(targets.drop_last()).push(targets.last())
    } else {
        live(targets.drop_last())
    }
}

/// What `str`'s [`Hash`] feeds to a hasher for a string.
pub uninterp spec fn str_hash_writes(key: Seq<char>) -> Seq<Seq<u8>>;

/// Calls [`Hash::hash`] of `str`: it adds to what the hasher was fed, and what it
/// adds is a function of the string alone.
#[verifier::external_body]
fn hash_str(key: &str, hasher: &mut DefaultHasher)
    ensures
        final(hasher)@ == old(hasher)@ + str_hash_writes(key@),
{
    key.hash(hasher)
}

/// The hash of a key: a fresh hasher is fed the key and finished.
pub open spec fn key_hash(key: Seq<char>) -> u64 {
    DefaultHasher::spec_finish(str_hash_writes(key))
}

/// The way in which a balancer picks, with the state that this depends on.
pub enum Policy {
    /// In turn: `counter` picks were made so far, modulo the range of `usize`.
    RoundRobin { counter: usize },
    /// Where the fewest connections are open.
    LeastConn,
    /// By the hash of the key.
    ConsistentHash,
}

/// The target at `k` has the fewest open connections, and is the first with so
/// few.
pub open spec fn is_least_active(candidates: Seq<Target>, k: int) -> bool {
    &&& 0 <= k < candidates.len()
    &&& forall|j: int|
        0 <= j < candidates.len() ==> candidates[k].active <= (#[trigger] candidates[j]).active
    &&& forall|j: int| 0 <= j < k ==> candidates[k].active < (#[trigger] candidates[j]).active
}

/// The first of the targets with the fewest open connections.
pub open spec fn least_active(candidates: Seq<Target>) -> int {
    choose|k: int| is_least_active(candidates, k)
}

impl Policy {
    /// Which of the candidates is picked for a key.
    pub open spec fn pick(self, candidates: Seq<Target>, key: Option<Seq<char>>) -> int {
        match self {
            Policy::RoundRobin { counter } => counter as int % candidates.len() as int,
            Policy::LeastConn => least_active(candidates),
            Policy::ConsistentHash => (key_hash(
                match key {
                    Some(k) => k,
                    None => "default"@,
                },
            ) as usize) as int % candidates.len() as int,
        }
    }

    /// The policy after a pick was asked for: the turn moves on where there was
    /// a candidate.
    pub open spec fn after(self, candidates: Seq<Target>) -> Policy {
        match self {
            Policy::RoundRobin { counter } => if candidates.len() == 0 {
                self
            } else if counter == usize::MAX {
                Policy::RoundRobin { counter: 0 }
            } else {
                Policy::RoundRobin { counter: (counter + 1) as usize }
            },
            _ => self,
        }
    }
}

/// The target at `i` is alive, has the fewest open connections of those that
/// are, and is the first with so few.
pub open spec fn is_least_live(targets: Seq<Target>, i: int) -> bool {
    &&& 0 <= i < targets.len()
    &&& targets[i].alive
    &&& forall|j: int|
        0 <= j < targets.len() && (#[trigger] targets[j]).alive ==> targets[i].active
            <= targets[j].active
    &&& forall|j: int|
        0 <= j < i && (#[trigger] targets[j]).alive ==> targets[i].active < targets[j].active
}

/// The target with one more open connection, as far as that can be counted.
pub open spec fn one_more(target: Target) -> Target {
    Target {
        active: if target.active < usize::MAX {
            (target.active + 1) as usize
        } else {
            target.active
        },
        ..target
    }
}

/// The target with one open connection less.
pub open spec fn one_less(target: Target) -> Target {
    Target {
        active: if target.active > 0 {
            (target.active - 1) as usize
        } else {
            target.active
        },
        ..target
    }
}

/// The target at `i` is the first at that address with open connections.
pub open spec fn is_first_open(targets: Seq<Target>, url: Seq<char>, i: int) -> bool {
    &&& 0 <= i < targets.len()
    &&& targets[i].url@ == url
    &&& targets[i].active > 0
    &&& forall|j: int|
        0 <= j < i ==> !((#[trigger] targets[j]).url@ == url && targets[j].active > 0)
}

impl Policy {
    /// The targets after a pick. Where the policy goes by the number of open
    /// connections, the picked target has one more.
    pub open spec fn picked(self, targets: Seq<Target>) -> Seq<Target> {
        if self is LeastConn && live(targets).len() > 0 {
            let i = choose|i: int| is_least_live(targets, i);
            targets.update(i, one_more(targets[i]))
        } else {
            targets
        }
    }

    /// The targets once a connection to an address is closed. Where the policy
    /// goes by the number of open connections, there is one less to the address,
    /// unless there was none.
    pub open spec fn released(self, targets: Seq<Target>, url: Seq<char>) -> Seq<Target> {
        if self is LeastConn && exists|i: int| is_first_open(targets, url, i) {
            let i = choose|i: int| is_first_open(targets, url, i);
            targets.update(i, one_less(targets[i]))
        } else {
            targets
        }
    }
}

/// The view of an optional key.
pub open spec fn key_view(key: Option<&str>) -> Option<Seq<char>> {
    match key {
        Some(k) => Some(k@),
        None => None,
    }
}

/// What a balancer with this policy and these targets answers for a key: the
/// address of the picked target, if any target is alive.
pub open spec fn answer(policy: Policy, targets: Seq<Target>, key: Option<Seq<char>>) -> Option<
    Seq<char>,
> {
    if live(targets).len() == 0 {
        None
    } else {
        Some(live(targets)[policy.pick(live(targets), key)].url@)
    }
}

/// Picks targets.
pub trait Balancer: Send + Sync {
    /// How it picks.
    spec fn policy(&self) -> Policy;

    /// The targets it picks from.
    spec fn members(&self) -> Seq<Target>;

    /// Picks the next target for a key and gives its address.
    fn next(&mut self, key: Option<&str>) -> (r: Option<String>)
        ensures
            final(self).members() == old(self).policy().picked(old(self).members()),
            final(self).policy() == old(self).policy().after(live(old(self).members())),
            r is Some <==> answer(old(self).policy(), old(self).members(), key_view(key)) is Some,
            r matches Some(url) ==> url@ == answer(
                old(self).policy(),
                old(self).members(),
                key_view(key),
            )->0,
    ;

    /// All targets, alive or not.
    fn targets(&self) -> (r: &[Target])
        ensures
            r@ == self.members(),
    ;

    /// Notes that a connection to the address of a picked target is closed.
    fn release(&mut self, url: &str)
        ensures
            final(self).policy() == old(self).policy(),
            final(self).members() == old(self).policy().released(old(self).members(), url@),
    ;

    /// Notes whether a target is alive.
    fn set_alive(&mut self, index: usize, alive: bool)
        requires
            index < old(self).members().len(),
        ensures
            final(self).policy() == old(self).policy(),
            final(self).members() == with_alive(old(self).members(), index as int, alive),
    ;
}

/// The targets once one of them is noted as alive or not.
pub open spec fn with_alive(targets: Seq<Target>, index: int, alive: bool) -> Seq<Target> {
    targets.update(
        index,
        Target { url: targets[index].url, alive, active: targets[index].active },
    )
}

/// The positions of the targets that are alive.
fn live_positions(targets: &Vec<Target>) -> (r: Vec<usize>)
    ensures
        r.len() == live(targets@).len(),
        forall|j: int|
            0 <= j < r.len() ==> (#[trigger] r@[j]) < targets.len() && targets@[r@[j] as int]
                == live(targets@)[j],
        forall|j: int, k: int| 0 <= j < k < r.len() ==> #[trigger] r@[j] < #[trigger] r@[k],
        forall|i: int|
            0 <= i < targets.len() && (#[trigger] targets@[i]).alive ==> exists|j: int|
                0 <= j < r.len() && #[trigger] r@[j] == i,
{
    let mut out: Vec<usize> = Vec::new();
    let mut i: usize = 0;
    while i < targets.len()
        invariant
            i <= targets.len(),
            out.len() == live(targets@.take(i as int)).len(),
            forall|j: int|
                0 <= j < out.len() ==> (#[trigger] out@[j]) < i && targets@[out@[j] as int]
                    == live(targets@.take(i as int))[j],
            forall|j: int, k: int|
                0 <= j < k < out.len() ==> #[trigger] out@[j] < #[trigger] out@[k],
            forall|a: int|
                0 <= a < i && (#[trigger] targets@[a]).alive ==> exists|j: int|
                    0 <= j < out.len() && #[trigger] out@[j] == a,
        decreases targets.len() - i,
    {
        assert(targets@.take(i + 1).drop_last() =~= targets@.take(i as int));
        let ghost before = out@;
        if targets[i].is_alive() {
            out.push(i);
            assert(out@[before.len() as int] == i);
        }
        assert forall|a: int| 0 <= a < i + 1 && (#[trigger] targets@[a]).alive implies exists|j: int|
            0 <= j < out.len() && #[trigger] out@[j] == a by {
            if a < i {
                let j = choose|j: int| 0 <= j < before.len() && #[trigger] before[j] == a;
                assert(out@[j] == a);
            }
        }
        i += 1;
    }
    assert(targets@.take(i as int) =~= targets@);
    out
}

fn mark(targets: &mut Vec<Target>, index: usize, alive: bool)
    requires
        index < old(targets).len(),
    ensures
        final(targets)@ == with_alive(old(targets)@, index as int, alive),
{
    let t = &targets[index];
    let next = Target { url: t.url.clone(), alive, active: t.active };
    targets.set(index, next);
    assert(targets@ =~= with_alive(old(targets)@, index as int, alive));
}

/// Picks the targets in turn.
pub struct RoundRobin {
    targets: Vec<Target>,
    counter: usize,
}

impl RoundRobin {
    /// A balancer that starts with the first target.
    pub fn new(targets: Vec<Target>) -> (r: RoundRobin)
        ensures
            r.members() == targets@,
            r.policy() == (Policy::RoundRobin { counter: 0 }),
    {
        RoundRobin { targets, counter: 0 }
    }
}

impl Balancer for RoundRobin {
    closed spec fn policy(&self) -> Policy {
        Policy::RoundRobin { counter: self.counter }
    }

    closed spec fn members(&self) -> Seq<Target> {
        self.targets@
    }

    fn next(&mut self, key: Option<&str>) -> (r: Option<String>) {
        let alive = live_positions(&self.targets);
        if alive.len() == 0 {
            return None;
        }
        let index = self.counter % alive.len();
        self.counter = self.counter.wrapping_add(1);
        Some(self.targets[alive[index]].url.clone())
    }

    fn targets(&self) -> (r: &[Target]) {
        self.targets.as_slice()
    }

    fn release(&mut self, url: &str) {
    }

    fn set_alive(&mut self, index: usize, alive: bool) {
        mark(&mut self.targets, index, alive);
    }
}

/// Picks the target with the fewest open connections.
pub struct LeastConn {
    targets: Vec<Target>,
}

impl LeastConn {
    /// A balancer over these targets.
    pub fn new(targets: Vec<Target>) -> (r: LeastConn)
        ensures
            r.members() == targets@,
            r.policy() == Policy::LeastConn,
    {
        LeastConn { targets }
    }
}

impl Balancer for LeastConn {
    closed spec fn policy(&self) -> Policy {
        Policy::LeastConn
    }

    closed spec fn members(&self) -> Seq<Target> {
        self.targets@
    }

    fn next(&mut self, key: Option<&str>) -> (r: Option<String>) {
        let alive = live_positions(&self.targets);
        if alive.len() == 0 {
            return None;
        }
        let ghost candidates = live(self.targets@);
        let mut best: usize = 0;
        let mut i: usize = 1;
        while i < alive.len()
            invariant
                1 <= i <= alive.len(),
                best < i,
                alive.len() == candidates.len(),
                candidates == live(self.targets@),
                forall|j: int|
                    0 <= j < alive.len() ==> (#[trigger] alive@[j]) < self.targets.len()
                        && self.targets@[alive@[j] as int] == candidates[j],
                self.targets@ == old(self).targets@,
                forall|j: int|
                    0 <= j < i ==> candidates[best as int].active <= (
                    #[trigger] candidates[j]).active,
                forall|j: int|
                    0 <= j < best ==> candidates[best as int].active < (
                    #[trigger] candidates[j]).active,
            decreases alive.len() - i,
        {
            assert(self.targets@[alive@[i as int] as int] == candidates[i as int]);
            assert(self.targets@[alive@[best as int] as int] == candidates[best as int]);
            if self.targets[alive[i]].active < self.targets[alive[best]].active {
                best = i;
            }
            i += 1;
        }
        let index = alive[best];
        proof {
            assert(is_least_active(candidates, best as int));
            lemma_least_active_unique(candidates, best as int);
            let all = self.targets@;
            assert forall|j: int| 0 <= j < all.len() && (#[trigger] all[j]).alive implies {
                &&& all[index as int].active <= all[j].active
                &&& j < index ==> all[index as int].active < all[j].active
            } by {
                let k = choose|k: int| 0 <= k < alive.len() && #[trigger] alive@[k] == j;
                assert(all[alive@[k] as int] == candidates[k]);
                if j < index && k >= best {
                    assert(k == best || alive@[best as int] < alive@[k]);
                }
            }
            lemma_live_member(all, best as int);
            assert(is_least_live(all, index as int));
            lemma_least_live_unique(all, index as int);
        }
        let t = &self.targets[index];
        let url = t.url.clone();
        let active = if t.active < usize::MAX { t.active + 1 } else { t.active };
        let next = Target { url: t.url.clone(), alive: t.alive, active };
        self.targets.set(index, next);
        Some(url)
    }

    fn targets(&self) -> (r: &[Target]) {
        self.targets.as_slice()
    }

    fn release(&mut self, url: &str) {
        let mut i: usize = 0;
        while i < self.targets.len()
            invariant
                i <= self.targets.len(),
                self.targets@ == old(self).targets@,
                forall|j: int|
                    0 <= j < i ==> !((#[trigger] self.targets@[j]).url@ == url@
                        && self.targets@[j].active > 0),
            decreases self.targets.len() - i,
        {
            let t = &self.targets[i];
            if t.active > 0 && str_eq(t.url.as_str(), url) {
                proof {
                    assert(is_first_open(self.targets@, url@, i as int));
                    lemma_first_open_unique(self.targets@, url@, i as int);
                }
                let next = Target { url: t.url.clone(), alive: t.alive, active: t.active - 1 };
                self.targets.set(i, next);
                return;
            }
            i += 1;
        }
        assert(!exists|k: int| is_first_open(self.targets@, url@, k));
    }

    fn set_alive(&mut self, index: usize, alive: bool) {
        mark(&mut self.targets, index, alive);
    }
}

/// Picks by the hash of the key, so that a key keeps its target as long as the
/// same targets are alive.
pub struct ConsistentHash {
    targets: Vec<Target>,
}

impl ConsistentHash {
    /// A balancer over these targets.
    pub fn new(targets: Vec<Target>) -> (r: ConsistentHash)
        ensures
            r.members() == targets@,
            r.policy() == Policy::ConsistentHash,
    {
        ConsistentHash { targets }
    }

    /// The hash of a key.
    pub fn hash_key(key: &str) -> (r: u64)
        ensures
            r == key_hash(key@),
            r == DefaultHasher::spec_finish(str_hash_writes(key@)),
    {
        let mut hasher = DefaultHasher::new();
        hash_str(key, &mut hasher);
        assert(hasher@ =~= str_hash_writes(key@));
        hasher.finish()
    }

    /// Which of `n` candidates a hash selects.
    pub fn slot(hash: u64, n: usize) -> (r: usize)
        requires
            n > 0,
        ensures
            r == (hash as usize) as int % n as int,
            r < n,
    {
        (hash as usize) % n
    }
}

impl Balancer for ConsistentHash {
    closed spec fn policy(&self) -> Policy {
        Policy::ConsistentHash
    }

    closed spec fn members(&self) -> Seq<Target> {
        self.targets@
    }

    fn next(&mut self, key: Option<&str>) -> (r: Option<String>) {
        let alive = live_positions(&self.targets);
        if alive.len() == 0 {
            return None;
        }
        let hash = match key {
            Some(k) => Self::hash_key(k),
            None => Self::hash_key("default"),
        };
        let index = Self::slot(hash, alive.len());
        Some(self.targets[alive[index]].url.clone())
    }

    fn targets(&self) -> (r: &[Target]) {
        self.targets.as_slice()
    }

    fn release(&mut self, url: &str) {
    }

    fn set_alive(&mut self, index: usize, alive: bool) {
        mark(&mut self.targets, index, alive);
    }
}

/// A balancer of any kind.
pub struct AnyBalancer {
    pub inner: Box<dyn Balancer>,
}

/// The policy that a setting names; whatever is not known means in turn.
pub open spec fn named_policy(lb: Seq<char>) -> Policy {
    if lb == "least_conn"@ {
        Policy::LeastConn
    } else if lb == "consistent_hash"@ {
        Policy::ConsistentHash
    } else {
        Policy::RoundRobin { counter: 0 }
    }
}

/// Makes the balancer that a setting names.
pub fn make_balancer(lb: &str, targets: Vec<Target>) -> (r: AnyBalancer)
    ensures
        r.inner.members() == targets@,
        r.inner.policy() == named_policy(lb@),
{
    if str_eq(lb, "least_conn") {
        AnyBalancer { inner: Box::new(LeastConn::new(targets)) }
    } else if str_eq(lb, "consistent_hash") {
        AnyBalancer { inner: Box::new(ConsistentHash::new(targets)) }
    } else {
        AnyBalancer { inner: Box::new(RoundRobin::new(targets)) }
    }
}

proof fn lemma_least_active_unique(candidates: Seq<Target>, k: int)
    requires
        is_least_active(candidates, k),
    ensures
        least_active(candidates) == k,
{
    let m = least_active(candidates);
    assert(is_least_active(candidates, m));
    if m < k {
        assert(candidates[k].active < candidates[m].active);
    } else if k < m {
        assert(candidates[m].active < candidates[k].active);
    }
}

proof fn lemma_least_live_unique(targets: Seq<Target>, k: int)
    requires
        is_least_live(targets, k),
    ensures
        (choose|i: int| is_least_live(targets, i)) == k,
{
    let m = choose|i: int| is_least_live(targets, i);
    assert(is_least_live(targets, m));
    if m < k {
        assert(targets[k].active < targets[m].active);
    } else if k < m {
        assert(targets[m].active < targets[k].active);
    }
}

proof fn lemma_first_open_unique(targets: Seq<Target>, url: Seq<char>, k: int)
    requires
        is_first_open(targets, url, k),
    ensures
        (choose|i: int| is_first_open(targets, url, i)) == k,
{
    let m = choose|i: int| is_first_open(targets, url, i);
    assert(is_first_open(targets, url, m));
    if m < k {
        assert(!(targets[m].url@ == url && targets[m].active > 0));
    } else if k < m {
        assert(!(targets[k].url@ == url && targets[k].active > 0));
    }
}

/// What is left of the targets is alive, and is one of them.
proof fn lemma_live_member(targets: Seq<Target>, k: int)
    requires
        0 <= k < live(targets).len(),
    ensures
        live(targets)[k].alive,
        targets.contains(live(targets)[k]),
    decreases targets.len(),
{
    let rest = targets.drop_last();
    if targets.last().alive && k == live(rest).len() {
        assert(targets[targets.len() - 1] == live(targets)[k]);
    } else {
        lemma_live_member(rest, k);
        let i = choose|i: int| 0 <= i < rest.len() && rest[i] == live(rest)[k];
        assert(targets[i] == live(targets)[k]);
    }
}

/// No target is left exactly when none is alive.
proof fn lemma_live_empty(targets: Seq<Target>)
    ensures
        live(targets).len() == 0 <==> forall|i: int|
            0 <= i < targets.len() ==> !(#[trigger] targets[i]).alive,
    decreases targets.len(),
{
    if targets.len() > 0 {
        let rest = targets.drop_last();
        lemma_live_empty(rest);
        if live(targets).len() == 0 {
            assert forall|i: int| 0 <= i < targets.len() implies !(#[trigger] targets[i]).alive by {
                if i < rest.len() {
                    assert(!rest[i].alive);
                }
            }
        }
        if forall|i: int| 0 <= i < targets.len() ==> !(#[trigger] targets[i]).alive {
            assert forall|i: int| 0 <= i < rest.len() implies !(#[trigger] rest[i]).alive by {
                assert(!targets[i].alive);
            }
            assert(!targets[targets.len() - 1].alive);
        }
    }
}

proof fn lemma_least_active_exists(candidates: Seq<Target>)
    requires
        candidates.len() > 0,
    ensures
        is_least_active(candidates, least_active(candidates)),
    decreases candidates.len(),
{
    if candidates.len() == 1 {
        assert(is_least_active(candidates, 0));
    } else {
        let rest = candidates.drop_last();
        lemma_least_active_exists(rest);
        let k = least_active(rest);
        let n = candidates.len() - 1;
        assert forall|j: int| 0 <= j < n implies candidates[k].active <= (
        #[trigger] candidates[j]).active by {
            assert(rest[k].active <= rest[j].active);
        }
        assert forall|j: int| 0 <= j < k implies candidates[k].active < (
        #[trigger] candidates[j]).active by {
            assert(rest[k].active < rest[j].active);
        }
        if candidates[n].active < candidates[k].active {
            assert(is_least_active(candidates, n));
        } else {
            assert(is_least_active(candidates, k));
        }
    }
}

/// Every pick is one of the candidates.
pub proof fn law_pick_in_range(policy: Policy, candidates: Seq<Target>, key: Option<Seq<char>>)
    requires
        candidates.len() > 0,
    ensures
        0 <= policy.pick(candidates, key) < candidates.len(),
{
    lemma_least_active_exists(candidates);
    let n = candidates.len() as int;
    match policy {
        Policy::RoundRobin { counter } => {
            vstd::arithmetic::div_mod::lemma_mod_bound(counter as int, n);
        },
        Policy::LeastConn => {},
        Policy::ConsistentHash => {
            let h = key_hash(
                match key {
                    Some(k) => k,
                    None => "default"@,
                },
            ) as usize;
            vstd::arithmetic::div_mod::lemma_mod_bound(h as int, n);
        },
    }
}

/// A balancer answers exactly when one of its targets is alive, and answers with
/// the address of a target that is.
pub proof fn law_answers_with_live_target(
    policy: Policy,
    targets: Seq<Target>,
    key: Option<Seq<char>>,
)
    ensures
        answer(policy, targets, key) is Some <==> exists|i: int|
            0 <= i < targets.len() && (#[trigger] targets[i]).alive,
        answer(policy, targets, key) matches Some(url) ==> exists|i: int|
            0 <= i < targets.len() && (#[trigger] targets[i]).alive && targets[i].url@ == url,
{
    lemma_live_empty(targets);
    if live(targets).len() > 0 {
        law_pick_in_range(policy, live(targets), key);
        let k = policy.pick(live(targets), key);
        lemma_live_member(targets, k);
        let i = choose|i: int| 0 <= i < targets.len() && targets[i] == live(targets)[k];
        assert(targets[i].alive && targets[i].url@ == answer(policy, targets, key)->0);
    }
}

/// The policy after `calls` picks among the same candidates.
pub open spec fn after_calls(policy: Policy, candidates: Seq<Target>, calls: nat) -> Policy
    decreases calls,
{
    if calls == 0 {
        policy
    } else {
        after_calls(policy, candidates, (calls - 1) as nat).after(candidates)
    }
}

proof fn lemma_counter_after_calls(counter: usize, candidates: Seq<Target>, calls: nat)
    requires
        candidates.len() > 0,
        counter + calls <= usize::MAX,
    ensures
        after_calls(Policy::RoundRobin { counter }, candidates, calls) == (Policy::RoundRobin {
            counter: (counter + calls) as usize,
        }),
    decreases calls,
{
    if calls > 0 {
        lemma_counter_after_calls(counter, candidates, (calls - 1) as nat);
    }
}

/// Taking turns is fair: of as many picks in a row as there are candidates, no
/// two pick the same one, and so each is picked once. The count of picks starts
/// over after `usize::MAX`, and a row that runs across that point is left out.
pub proof fn law_round_robin_takes_turns(
    counter: usize,
    candidates: Seq<Target>,
    key: Option<Seq<char>>,
    a: nat,
    b: nat,
)
    requires
        a < b < candidates.len(),
        counter + b <= usize::MAX,
    ensures
        after_calls(Policy::RoundRobin { counter }, candidates, a).pick(candidates, key)
            != after_calls(Policy::RoundRobin { counter }, candidates, b).pick(candidates, key),
{
    lemma_counter_after_calls(counter, candidates, a);
    lemma_counter_after_calls(counter, candidates, b);
    let n = candidates.len() as int;
    let x = counter + a;
    let y = counter + b;
    if x % n == y % n {
        vstd::arithmetic::div_mod::lemma_fundamental_div_mod(x, n);
        vstd::arithmetic::div_mod::lemma_fundamental_div_mod(y, n);
        let q = y / n - x / n;
        assert(y - x == n * q) by (nonlinear_arith)
            requires
                x == n * (x / n) + x % n,
                y == n * (y / n) + y % n,
                x % n == y % n,
                q == y / n - x / n,
        ;
        assert(false) by (nonlinear_arith)
            requires
                y - x == n * q,
                0 < y - x < n,
        ;
    }
}

/// Each candidate gets its turn within as many picks as there are candidates.
pub proof fn law_round_robin_reaches_all(
    counter: usize,
    candidates: Seq<Target>,
    key: Option<Seq<char>>,
    k: int,
)
    requires
        0 <= k < candidates.len(),
        counter + candidates.len() <= usize::MAX,
    ensures
        exists|calls: nat|
            calls < candidates.len() && (#[trigger] after_calls(
                Policy::RoundRobin { counter },
                candidates,
                calls,
            )).pick(candidates, key) == k,
{
    let n = candidates.len() as int;
    let c = counter as int;
    vstd::arithmetic::div_mod::lemma_mod_bound(c, n);
    let calls: nat = if k >= c % n {
        (k - c % n) as nat
    } else {
        (k + n - c % n) as nat
    };
    lemma_counter_after_calls(counter, candidates, calls);
    vstd::arithmetic::div_mod::lemma_fundamental_div_mod(c, n);
    let q = if k >= c % n {
        c / n
    } else {
        c / n + 1
    };
    assert(c + calls == q * n + k) by (nonlinear_arith)
        requires
            c == n * (c / n) + c % n,
            q == (if k >= c % n { c / n } else { c / n + 1 }),
            calls == (if k >= c % n { k - c % n } else { k + n - c % n }),
    ;
    vstd::arithmetic::div_mod::lemma_fundamental_div_mod_converse(c + calls, n, q, k);
    assert(after_calls(Policy::RoundRobin { counter }, candidates, calls).pick(candidates, key)
        == k);
}

/// The addresses of targets.
pub open spec fn urls(targets: Seq<Target>) -> Seq<Seq<char>> {
    targets.map_values(|t: Target| t.url@)
}

/// A key keeps its target: as long as the targets that are alive have the same
/// addresses, a balancer that goes by the hash gives the same answer for it,
/// however many picks were made in between.
pub proof fn law_hash_keeps_target(
    before: Seq<Target>,
    after: Seq<Target>,
    key: Option<Seq<char>>,
    calls: nat,
)
    requires
        urls(live(before)) == urls(live(after)),
    ensures
        answer(
            after_calls(Policy::ConsistentHash, live(before), calls),
            after,
            key,
        ) == answer(Policy::ConsistentHash, before, key),
{
    lemma_hash_policy_stays(live(before), calls);
    assert(urls(live(before)).len() == live(before).len());
    assert(urls(live(after)).len() == live(after).len());
    if live(before).len() > 0 {
        law_pick_in_range(Policy::ConsistentHash, live(before), key);
        let k = Policy::ConsistentHash.pick(live(before), key);
        assert(urls(live(before))[k] == live(before)[k].url@);
        assert(urls(live(after))[k] == live(after)[k].url@);
    }
}

proof fn lemma_hash_policy_stays(candidates: Seq<Target>, calls: nat)
    ensures
        after_calls(Policy::ConsistentHash, candidates, calls) == Policy::ConsistentHash,
    decreases calls,
{
    if calls > 0 {
        lemma_hash_policy_stays(candidates, (calls - 1) as nat);
    }
}

/// The target with the fewest open connections is picked, and of several such
/// targets the first.
pub proof fn law_least_conn_picks_least(candidates: Seq<Target>, key: Option<Seq<char>>)
    requires
        candidates.len() > 0,
    ensures
        is_least_active(candidates, Policy::LeastConn.pick(candidates, key)),
{
    lemma_least_active_exists(candidates);
}

/// How many connections to an address are open.
pub open spec fn open_to(targets: Seq<Target>, url: Seq<char>) -> nat
    decreases targets.len(),
{
    if targets.len() == 0 {
        0
    } else {
        open_to(targets.drop_last(), url) + (if targets.last().url@ == url {
            targets.last().active as nat
        } else {
            0
        })
    }
}

pub(crate) proof fn lemma_open_to_update(targets: Seq<Target>, i: int, t: Target, url: Seq<char>)
    requires
        0 <= i < targets.len(),
        t.url == targets[i].url,
    ensures
        open_to(targets.update(i, t), url) == open_to(targets, url) + (if t.url@ == url {
            t.active - targets[i].active
        } else {
            0
        }),
    decreases targets.len(),
{
    let next = targets.update(i, t);
    if i == targets.len() - 1 {
        assert(next.drop_last() =~= targets.drop_last());
    } else {
        assert(next.drop_last() =~= targets.drop_last().update(i, t));
        lemma_open_to_update(targets.drop_last(), i, t, url);
    }
}

proof fn lemma_least_live_exists(targets: Seq<Target>)
    requires
        live(targets).len() > 0,
    ensures
        exists|i: int| is_least_live(targets, i),
    decreases targets.len(),
{
    let rest = targets.drop_last();
    let n = targets.len() - 1;
    if live(rest).len() == 0 {
        lemma_live_empty(rest);
        assert forall|j: int| 0 <= j < n implies !(#[trigger] targets[j]).alive by {
            assert(!rest[j].alive);
        }
        assert(is_least_live(targets, n));
    } else {
        lemma_least_live_exists(rest);
        let i = choose|i: int| is_least_live(rest, i);
        assert forall|j: int| 0 <= j < n && (#[trigger] targets[j]).alive implies {
            &&& targets[i].active <= targets[j].active
            &&& j < i ==> targets[i].active < targets[j].active
        } by {
            assert(rest[j].alive);
        }
        if targets[n].alive && targets[n].active < targets[i].active {
            assert(is_least_live(targets, n));
        } else {
            assert(is_least_live(targets, i));
        }
    }
}

proof fn lemma_open_means_first(targets: Seq<Target>, url: Seq<char>)
    requires
        open_to(targets, url) > 0,
    ensures
        exists|i: int| is_first_open(targets, url, i),
    decreases targets.len(),
{
    let rest = targets.drop_last();
    let n = targets.len() - 1;
    if open_to(rest, url) > 0 {
        lemma_open_means_first(rest, url);
        let i = choose|i: int| is_first_open(rest, url, i);
        assert forall|j: int| 0 <= j < i implies !((#[trigger] targets[j]).url@ == url
            && targets[j].active > 0) by {
            assert(!(rest[j].url@ == url && rest[j].active > 0));
        }
        assert(is_first_open(targets, url, i));
    } else {
        assert forall|j: int| 0 <= j < n implies !((#[trigger] targets[j]).url@ == url
            && targets[j].active > 0) by {
            lemma_open_at_least(rest, url, j);
        }
        assert(is_first_open(targets, url, n));
    }
}

pub(crate) proof fn lemma_open_at_least(targets: Seq<Target>, url: Seq<char>, i: int)
    requires
        0 <= i < targets.len(),
    ensures
        targets[i].url@ == url ==> open_to(targets, url) >= targets[i].active,
    decreases targets.len(),
{
    if i < targets.len() - 1 {
        lemma_open_at_least(targets.drop_last(), url, i);
    }
}

/// The index of the least busy live target is that of the pick.
proof fn lemma_least_live_is_picked(targets: Seq<Target>, key: Option<Seq<char>>)
    requires
        live(targets).len() > 0,
    ensures
        ({
            let i = choose|i: int| is_least_live(targets, i);
            is_least_live(targets, i) && answer(Policy::LeastConn, targets, key) == Some(
                targets[i].url@,
            )
        }),
    decreases targets.len(),
{
    lemma_least_live_exists(targets);
    let i = choose|i: int| is_least_live(targets, i);
    let k = rank_of(targets, i);
    lemma_rank(targets, i);
    let c = live(targets);
    assert forall|j: int| 0 <= j < c.len() implies {
        &&& c[k].active <= (#[trigger] c[j]).active
        &&& j < k ==> c[k].active < c[j].active
    } by {
        let p = lemma_position(targets, j);
        lemma_rank(targets, p);
        if p > i {
            lemma_rank_monotone(targets, i, p);
        }
        if p == i {
            assert(j == k);
        }
        assert(targets[p].alive);
    }
    assert(is_least_active(c, k));
    lemma_least_active_unique(c, k);
}

/// How many live targets come before a position.
spec fn rank_of(targets: Seq<Target>, i: int) -> int {
    live(targets.take(i)).len() as int
}

proof fn lemma_rank(targets: Seq<Target>, i: int)
    requires
        0 <= i < targets.len(),
        targets[i].alive,
    ensures
        0 <= rank_of(targets, i) < live(targets).len(),
        live(targets)[rank_of(targets, i)] == targets[i],
    decreases targets.len(),
{
    let rest = targets.drop_last();
    if i == targets.len() - 1 {
        assert(targets.take(i) =~= rest);
    } else {
        lemma_rank(rest, i);
        assert(rest.take(i) =~= targets.take(i));
    }
}

proof fn lemma_rank_monotone(targets: Seq<Target>, i: int, p: int)
    requires
        0 <= i < p < targets.len(),
        targets[i].alive,
    ensures
        rank_of(targets, i) < rank_of(targets, p),
    decreases p - i,
{
    assert(targets.take(i + 1).drop_last() =~= targets.take(i));
    if i + 1 < p {
        lemma_rank_weakly(targets, i + 1, p);
    }
}

proof fn lemma_rank_weakly(targets: Seq<Target>, i: int, p: int)
    requires
        0 <= i <= p <= targets.len(),
    ensures
        live(targets.take(i)).len() <= live(targets.take(p)).len(),
    decreases p - i,
{
    if i < p {
        assert(targets.take(i + 1).drop_last() =~= targets.take(i));
        lemma_rank_weakly(targets, i + 1, p);
    }
}

/// Where a live target stands among all targets.
proof fn lemma_position(targets: Seq<Target>, k: int) -> (p: int)
    requires
        0 <= k < live(targets).len(),
    ensures
        0 <= p < targets.len(),
        targets[p].alive,
        rank_of(targets, p) == k,
        targets[p] == live(targets)[k],
    decreases targets.len(),
{
    let rest = targets.drop_last();
    let n = targets.len() - 1;
    if targets.last().alive && k == live(rest).len() {
        assert(targets.take(n) =~= rest);
        n
    } else {
        let p = lemma_position(rest, k);
        assert(rest.take(p) =~= targets.take(p));
        p
    }
}

/// Neither a pick nor a release changes which targets there are, or which of
/// them are alive.
pub proof fn law_counting_keeps_targets(
    policy: Policy,
    targets: Seq<Target>,
    url: Seq<char>,
    i: int,
)
    requires
        0 <= i < targets.len(),
    ensures
        policy.picked(targets).len() == targets.len(),
        policy.picked(targets)[i].url == targets[i].url,
        policy.picked(targets)[i].alive == targets[i].alive,
        policy.released(targets, url).len() == targets.len(),
        policy.released(targets, url)[i].url == targets[i].url,
        policy.released(targets, url)[i].alive == targets[i].alive,
{
    if live(targets).len() > 0 {
        lemma_least_live_exists(targets);
        assert(is_least_live(targets, choose|k: int| is_least_live(targets, k)));
    }
    if exists|k: int| is_first_open(targets, url, k) {
        assert(is_first_open(targets, url, choose|k: int| is_first_open(targets, url, k)));
    }
}

/// A pick by the number of open connections is counted: there is one more to the
/// address that was answered with, and as many as before to any other. The count
/// stops at `usize::MAX`.
pub proof fn law_pick_is_counted(targets: Seq<Target>, key: Option<Seq<char>>, url: Seq<char>)
    requires
        answer(Policy::LeastConn, targets, key) is Some,
        forall|i: int| 0 <= i < targets.len() ==> (#[trigger] targets[i]).active < usize::MAX,
    ensures
        open_to(Policy::LeastConn.picked(targets), url) == open_to(targets, url) + (if answer(
            Policy::LeastConn,
            targets,
            key,
        ) == Some(url) {
            1int
        } else {
            0int
        }),
{
    lemma_least_live_is_picked(targets, key);
    let i = choose|i: int| is_least_live(targets, i);
    lemma_open_to_update(targets, i, one_more(targets[i]), url);
}

/// A release takes one connection to the address off, unless there is none, and
/// leaves the count of any other address.
pub proof fn law_release_takes_one_off(targets: Seq<Target>, url: Seq<char>, other: Seq<char>)
    ensures
        open_to(Policy::LeastConn.released(targets, url), url) == if open_to(targets, url) > 0 {
            open_to(targets, url) - 1
        } else {
            0
        },
        other != url ==> open_to(Policy::LeastConn.released(targets, url), other) == open_to(
            targets,
            other,
        ),
{
    if exists|i: int| is_first_open(targets, url, i) {
        let i = choose|i: int| is_first_open(targets, url, i);
        lemma_open_to_update(targets, i, one_less(targets[i]), url);
        lemma_open_to_update(targets, i, one_less(targets[i]), other);
        lemma_open_at_least(targets, url, i);
    } else if open_to(targets, url) > 0 {
        lemma_open_means_first(targets, url);
    }
}

/// A release undoes a pick: to every address as many connections are open as
/// before.
pub proof fn law_release_undoes_pick(
    targets: Seq<Target>,
    key: Option<Seq<char>>,
    url: Seq<char>,
    any: Seq<char>,
)
    requires
        answer(Policy::LeastConn, targets, key) == Some(url),
        forall|i: int| 0 <= i < targets.len() ==> (#[trigger] targets[i]).active < usize::MAX,
    ensures
        open_to(
            Policy::LeastConn.released(Policy::LeastConn.picked(targets), url),
            any,
        ) == open_to(targets, any),
{
    law_pick_is_counted(targets, key, url);
    law_pick_is_counted(targets, key, any);
    law_release_takes_one_off(Policy::LeastConn.picked(targets), url, any);
}

/// Where the policy does not go by the number of open connections, a pick and a
/// release leave the targets as they are.
pub proof fn law_only_least_conn_counts(policy: Policy, targets: Seq<Target>, url: Seq<char>)
    requires
        !(policy is LeastConn),
    ensures
        policy.picked(targets) == targets,
        policy.released(targets, url) == targets,
{
}

/// The hash of a key is what a fresh hasher makes of the whole key, so keys that
/// feed a hasher the same have the same hash.
pub proof fn law_whole_key_is_hashed(key: Seq<char>, other: Seq<char>)
    ensures
        key_hash(key) == DefaultHasher::spec_finish(str_hash_writes(key)),
        str_hash_writes(other) == str_hash_writes(key) ==> key_hash(other) == key_hash(key),
{
}

/// A target may be picked exactly if it is alive: of the targets those that are
/// alive are left, all of them and in their order.
pub proof fn law_live_targets(targets: Seq<Target>)
    ensures
        live(targets) == targets.filter(|t: Target| t.alive),
    decreases targets.len(),
{
    reveal(Seq::filter);
    if targets.len() > 0 {
        law_live_targets(targets.drop_last());
    }
}

/// A balancer that goes by the hash answers with the live target at the hash of
/// the whole key, counted round the live targets; where there is no key it takes
/// the hash of `default`.
pub proof fn law_hash_decides(targets: Seq<Target>, key: Seq<char>)
    requires
        live(targets).len() > 0,
    ensures
        answer(Policy::ConsistentHash, targets, Some(key)) == Some(
            live(targets)[(DefaultHasher::spec_finish(str_hash_writes(key)) as usize) as int
                % live(targets).len() as int].url@,
        ),
        answer(Policy::ConsistentHash, targets, None) == answer(
            Policy::ConsistentHash,
            targets,
            Some("default"@),
        ),
{
}

/// A balancer that takes turns starts with the first live target, goes on to the
/// next after each pick and to the first after the last, whatever the keys are.
/// The count of picks starts over after `usize::MAX`, where the turn may skip.
pub proof fn law_turns_go_round(
    counter: usize,
    targets: Seq<Target>,
    key: Option<Seq<char>>,
    other: Option<Seq<char>>,
)
    requires
        live(targets).len() > 0,
    ensures
        ({
            let c = live(targets);
            let n = c.len() as int;
            let now = Policy::RoundRobin { counter };
            let next = now.after(c);
            &&& answer(Policy::RoundRobin { counter: 0 }, targets, key) == Some(c[0].url@)
            &&& answer(now, targets, key) == answer(now, targets, other)
            &&& answer(now, targets, key) == Some(c[now.pick(c, key)].url@)
            &&& counter < usize::MAX ==> {
                &&& next.pick(c, key) == if now.pick(c, key) == n - 1 {
                    0
                } else {
                    now.pick(c, key) + 1
                }
                &&& answer(next, targets, key) == Some(c[next.pick(c, key)].url@)
            }
            &&& now.after(seq![]) == now
        }),
{
    let c = live(targets);
    let n = c.len() as int;
    let k = counter as int;
    vstd::arithmetic::div_mod::lemma_small_mod(0, n as nat);
    if counter < usize::MAX {
        vstd::arithmetic::div_mod::lemma_fundamental_div_mod(k, n);
        vstd::arithmetic::div_mod::lemma_mod_bound(k, n);
        if k % n == n - 1 {
            assert(k + 1 == (k / n + 1) * n + 0) by (nonlinear_arith)
                requires
                    k == n * (k / n) + k % n,
                    k % n == n - 1,
            ;
            vstd::arithmetic::div_mod::lemma_fundamental_div_mod_converse(k + 1, n, k / n + 1, 0);
        } else {
            assert(k + 1 == (k / n) * n + (k % n + 1)) by (nonlinear_arith)
                requires
                    k == n * (k / n) + k % n,
            ;
            vstd::arithmetic::div_mod::lemma_fundamental_div_mod_converse(
                k + 1,
                n,
                k / n,
                k % n + 1,
            );
        }
    }
}

/// A balancer that goes by open connections answers with a live target to which
/// as few are open as to any live target, and to fewer than to any before it. The
/// pick is counted at that target, and nothing else of the targets changes. Gives
/// the position of the target.
pub proof fn law_least_busy_is_picked(targets: Seq<Target>, key: Option<Seq<char>>) -> (i: int)
    requires
        answer(Policy::LeastConn, targets, key) is Some,
    ensures
        0 <= i < targets.len(),
        targets[i].alive,
        answer(Policy::LeastConn, targets, key) == Some(targets[i].url@),
        forall|j: int|
            0 <= j < targets.len() && (#[trigger] targets[j]).alive ==> targets[i].active
                <= targets[j].active,
        forall|j: int|
            0 <= j < i && (#[trigger] targets[j]).alive ==> targets[i].active < targets[j].active,
        Policy::LeastConn.picked(targets).len() == targets.len(),
        forall|j: int|
            0 <= j < targets.len() && j != i ==> #[trigger] Policy::LeastConn.picked(targets)[j]
                == targets[j],
        targets[i].active < usize::MAX ==> Policy::LeastConn.picked(targets)[i] == (Target {
            url: targets[i].url,
            alive: true,
            active: (targets[i].active + 1) as usize,
        }),
        targets[i].active == usize::MAX ==> Policy::LeastConn.picked(targets)[i] == targets[i],
        Policy::LeastConn.after(live(targets)) == Policy::LeastConn,
{
    lemma_least_live_is_picked(targets, key);
    choose|i: int| is_least_live(targets, i)
}

/// Where no target is alive there is no answer, and a pick changes nothing.
pub proof fn law_nobody_is_picked(policy: Policy, targets: Seq<Target>, key: Option<Seq<char>>)
    requires
        forall|i: int| 0 <= i < targets.len() ==> !(#[trigger] targets[i]).alive,
    ensures
        answer(policy, targets, key) is None,
        policy.picked(targets) == targets,
        policy.after(live(targets)) == policy,
{
    lemma_live_empty(targets);
}

/// A closed connection is taken off the first target at its address that has one
/// open, and nothing else of the targets changes. Gives the position of the
/// target.
pub proof fn law_release_is_taken_off(targets: Seq<Target>, url: Seq<char>) -> (i: int)
    requires
        exists|j: int|
            0 <= j < targets.len() && (#[trigger] targets[j]).url@ == url && targets[j].active > 0,
    ensures
        0 <= i < targets.len(),
        targets[i].url@ == url,
        targets[i].active > 0,
        forall|j: int|
            0 <= j < i && (#[trigger] targets[j]).url@ == url ==> targets[j].active == 0,
        Policy::LeastConn.released(targets, url) == targets.update(
            i,
            Target {
                url: targets[i].url,
                alive: targets[i].alive,
                active: (targets[i].active - 1) as usize,
            },
        ),
{
    let j = choose|j: int|
        0 <= j < targets.len() && (#[trigger] targets[j]).url@ == url && targets[j].active > 0;
    lemma_open_at_least(targets, url, j);
    lemma_open_means_first(targets, url);
    let i = choose|i: int| is_first_open(targets, url, i);
    assert(is_first_open(targets, url, i));
    i
}

/// Where no connection to an address is open, closing one changes nothing.
pub proof fn law_nothing_to_release(targets: Seq<Target>, url: Seq<char>)
    requires
        forall|i: int|
            0 <= i < targets.len() && (#[trigger] targets[i]).url@ == url ==> targets[i].active
                == 0,
    ensures
        Policy::LeastConn.released(targets, url) == targets,
{
}

/// Noting whether a target is alive notes just that: its address, its connections
/// and every other target stay.
pub proof fn law_mark_is_noted(targets: Seq<Target>, index: int, alive: bool)
    requires
        0 <= index < targets.len(),
    ensures
        with_alive(targets, index, alive).len() == targets.len(),
        with_alive(targets, index, alive)[index].alive == alive,
        with_alive(targets, index, alive)[index].url == targets[index].url,
        with_alive(targets, index, alive)[index].active == targets[index].active,
        forall|j: int|
            0 <= j < targets.len() && j != index ==> #[trigger] with_alive(
                targets,
                index,
                alive,
            )[j] == targets[j],
{
}

/// The settings know two balancers by name; under any other name targets are
/// taken in turn, from the first on.
pub proof fn law_balancers_by_name(lb: Seq<char>)
    ensures
        named_policy(lb) is LeastConn <==> lb == "least_conn"@,
        named_policy(lb) is ConsistentHash <==> lb == "consistent_hash"@,
        lb != "least_conn"@ && lb != "consistent_hash"@ ==> named_policy(lb) == (
        Policy::RoundRobin { counter: 0 }),
{
    reveal_strlit("least_conn");
    reveal_strlit("consistent_hash");
    assert("least_conn"@.len() != "consistent_hash"@.len());
}

/// The connections to an address are those of all targets at it.
pub proof fn law_open_connections_add_up(targets: Seq<Target>, t: Target, url: Seq<char>)
    ensures
        open_to(seq![], url) == 0,
        open_to(targets.push(t), url) == open_to(targets, url) + if t.url@ == url {
            t.active as int
        } else {
            0
        },
{
    assert(targets.push(t).drop_last() =~= targets);
}

/// A key is seen as what it is.
pub proof fn law_key_is_seen_whole(key: Option<&str>)
    ensures
        key matches Some(k) ==> key_view(key) == Some(k@),
        key is None ==> key_view(key) is None,
{
}

} // verus!
