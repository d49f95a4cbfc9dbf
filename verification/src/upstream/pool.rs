//! The upstreams by name, and what is known of the health of their targets.

use vstd::prelude::*;
use vstd::string::*;

use super::balancer::{
    answer, key_view, law_answers_with_live_target, law_balancers_by_name, law_pick_is_counted,
    law_release_takes_one_off,
    law_release_undoes_pick, lemma_open_at_least, lemma_open_to_update, live, make_balancer,
    named_policy, open_to, with_alive, AnyBalancer, Policy, Target,
};
use crate::config::UpstreamConfig;
use crate::http::{uri_ok, valid_uri};
use crate::strmap::{
    distinct_keys, lemma_pairs_map_dom, lemma_pairs_map_get, lemma_pairs_map_push,
    lemma_pairs_map_update, pairs_map,
};
use crate::text::str_eq;

verus! {

/// The upstream that stands in for one that is not known.
pub const DEFAULT_UPSTREAM: &'static str = "default";

/// Seconds between two rounds of health checks.
pub const HEALTH_CHECK_SECONDS: u64 = 5;

/// What matters of an upstream: how its next target is picked, and from which.
pub struct Upstream {
    pub policy: Policy,
    pub members: Seq<Target>,
}

impl Upstream {
    /// The upstream after a pick.
    pub open spec fn after_pick(self) -> Upstream {
        Upstream {
            policy: self.policy.after(live(self.members)),
            members: self.policy.picked(self.members),
        }
    }

    /// The upstream once a connection to an address is closed.
    pub open spec fn after_release(self, url: Seq<char>) -> Upstream {
        Upstream { policy: self.policy, members: self.policy.released(self.members, url) }
    }
}

struct Entry {
    name: String,
    balancer: AnyBalancer,
}

/// All upstreams.
pub struct UpstreamPool {
    entries: Vec<Entry>,
}

spec fn entry_view(e: Entry) -> (Seq<char>, Upstream) {
    (
        e.name@,
        Upstream { policy: e.balancer.inner.policy(), members: e.balancer.inner.members() },
    )
}

spec fn entry_views(entries: Seq<Entry>) -> Seq<(Seq<char>, Upstream)> {
    entries.map_values(|e: Entry| entry_view(e))
}

/// The targets at these addresses, all of them alive.
pub open spec fn fresh_targets(urls: Seq<String>) -> Seq<Target> {
    urls.map_values(|url: String| Target { url, alive: true, active: 0 })
}

/// The upstream that a setting describes.
pub open spec fn configured(cfg: UpstreamConfig) -> Upstream {
    Upstream { policy: named_policy(cfg.lb@), members: fresh_targets(cfg.targets@) }
}

/// The upstreams once settings are read: a later one replaces an earlier one of
/// the same name.
pub open spec fn with_configs(
    upstreams: Map<Seq<char>, Upstream>,
    configs: Seq<UpstreamConfig>,
) -> Map<Seq<char>, Upstream>
    decreases configs.len(),
{
    if configs.len() == 0 {
        upstreams
    } else {
        with_configs(upstreams, configs.drop_last()).insert(
            configs.last().name@,
            configured(configs.last()),
        )
    }
}

/// The upstream that serves a name: the one of that name, or else the default
/// one, if there is one.
pub open spec fn serving(upstreams: Map<Seq<char>, Upstream>, name: Seq<char>) -> Option<
    Seq<char>,
> {
    if upstreams.contains_key(name) {
        Some(name)
    } else if upstreams.contains_key(DEFAULT_UPSTREAM@) {
        Some(DEFAULT_UPSTREAM@)
    } else {
        None
    }
}

/// The address that a request for a name and a key goes to, if any.
pub open spec fn routed_url(
    upstreams: Map<Seq<char>, Upstream>,
    name: Seq<char>,
    key: Option<Seq<char>>,
) -> Option<Seq<char>> {
    match serving(upstreams, name) {
        Some(n) => answer(upstreams[n].policy, upstreams[n].members, key),
        None => None,
    }
}

/// The upstreams after a request for a name was routed.
pub open spec fn after_routing(
    upstreams: Map<Seq<char>, Upstream>,
    name: Seq<char>,
) -> Map<Seq<char>, Upstream> {
    match serving(upstreams, name) {
        Some(n) => upstreams.insert(n, upstreams[n].after_pick()),
        None => upstreams,
    }
}

/// The upstreams once a request for a name that went to an address is over.
pub open spec fn after_request(
    upstreams: Map<Seq<char>, Upstream>,
    name: Seq<char>,
    url: Seq<char>,
) -> Map<Seq<char>, Upstream> {
    match serving(upstreams, name) {
        Some(n) => upstreams.insert(n, upstreams[n].after_release(url)),
        None => upstreams,
    }
}

/// The upstreams once a probe of a target came back. A target that is not there
/// changes nothing.
pub open spec fn after_probe(
    upstreams: Map<Seq<char>, Upstream>,
    name: Seq<char>,
    index: int,
    alive: bool,
) -> Map<Seq<char>, Upstream> {
    if upstreams.contains_key(name) && 0 <= index < upstreams[name].members.len() {
        upstreams.insert(
            name,
            Upstream {
                policy: upstreams[name].policy,
                members: with_alive(upstreams[name].members, index, alive),
            },
        )
    } else {
        upstreams
    }
}

/// A target to be probed.
pub struct Probe {
    /// The upstream it belongs to.
    pub upstream: String,
    /// Its position among the targets of the upstream.
    pub index: usize,
    /// What to ask for.
    pub url: String,
}

/// What a probe says: the upstream, the position of the target and the address.
pub type ProbeView = (Seq<char>, int, Seq<char>);

impl View for Probe {
    type V = ProbeView;

    open spec fn view(&self) -> ProbeView {
        (self.upstream@, self.index as int, self.url@)
    }
}

/// The views of a list of probes.
pub open spec fn probe_views(probes: Seq<Probe>) -> Seq<ProbeView> {
    probes.map_values(|p: Probe| p@)
}

/// The probes of the targets of one upstream, whether they are alive or not.
pub open spec fn upstream_probes(
    name: Seq<char>,
    members: Seq<Target>,
    path: Seq<char>,
) -> Seq<ProbeView> {
    Seq::new(members.len(), |i: int| (name, i, members[i].url@ + path))
}

/// One round of health checks: a probe of each target of each upstream that is
/// set up, in the order of the settings.
pub open spec fn planned_probes(
    upstreams: Map<Seq<char>, Upstream>,
    configs: Seq<UpstreamConfig>,
) -> Seq<ProbeView>
    decreases configs.len(),
{
    if configs.len() == 0 {
        seq![]
    } else {
        let last = configs.last();
        planned_probes(upstreams, configs.drop_last()) + if upstreams.contains_key(last.name@) {
            upstream_probes(
                last.name@,
                upstreams[last.name@].members,
                last.health_check_path@,
            )
        } else {
            seq![]
        }
    }
}

/// What a probe says of its target: it is alive if the address is a URI and the
/// answer was a success, or that there is nothing at the path.
pub open spec fn healthy(url: Seq<char>, status: Option<u16>) -> bool {
    valid_uri(url) && (status matches Some(s) && (200 <= s <= 299 || s == 404))
}

/// Whether a probe can be sent at all.
pub fn can_probe(url: &str) -> (r: bool)
    ensures
        r == valid_uri(url@),
{
    uri_ok(url)
}

/// Judges a target by the status that its probe was answered with, or by the
/// lack of an answer.
pub fn health_verdict(url: &str, status: Option<u16>) -> (r: bool)
    ensures
        r == healthy(url@, status),
{
    match status {
        Some(s) => can_probe(url) && ((200 <= s && s <= 299) || s == 404),
        None => false,
    }
}

impl View for UpstreamPool {
    type V = Map<Seq<char>, Upstream>;

    closed spec fn view(&self) -> Map<Seq<char>, Upstream> {
        pairs_map(entry_views(self.entries@))
    }
}

impl UpstreamPool {
    #[verifier::type_invariant]
    spec fn names_are_distinct(self) -> bool {
        distinct_keys(entry_views(self.entries@))
    }

    /// A pool without upstreams.
    pub fn new() -> (r: UpstreamPool)
        ensures
            r@ == Map::<Seq<char>, Upstream>::empty(),
    {
        UpstreamPool { entries: Vec::new() }
    }

    fn position(&self, name: &str) -> (r: Option<usize>)
        ensures
            r is Some <==> self@.contains_key(name@),
            r matches Some(i) ==> {
                &&& i < self.entries.len()
                &&& self.entries@[i as int].name@ == name@
                &&& self@[name@] == entry_view(self.entries@[i as int]).1
            },
            r is None ==> forall|j: int|
                0 <= j < self.entries.len() ==> (#[trigger] entry_views(self.entries@)[j]).0
                    != name@,
    {
        proof {
            use_type_invariant(self);
            lemma_pairs_map_dom(entry_views(self.entries@), name@);
        }
        let mut i: usize = 0;
        while i < self.entries.len()
            invariant
                i <= self.entries.len(),
                distinct_keys(entry_views(self.entries@)),
                forall|j: int|
                    0 <= j < i ==> (#[trigger] entry_views(self.entries@)[j]).0 != name@,
            decreases self.entries.len() - i,
        {
            if str_eq(self.entries[i].name.as_str(), name) {
                proof {
                    lemma_pairs_map_get(entry_views(self.entries@), i as int);
                }
                return Some(i);
            }
            i += 1;
        }
        None
    }

    fn insert(&mut self, name: String, balancer: AnyBalancer)
        ensures
            final(self)@ == old(self)@.insert(
                name@,
                Upstream {
                    policy: balancer.inner.policy(),
                    members: balancer.inner.members(),
                },
            ),
    {
        proof {
            use_type_invariant(&*self);
        }
        let ghost before = entry_views(self.entries@);
        let found = self.position(name.as_str());
        let mut entries: Vec<Entry> = Vec::new();
        std::mem::swap(&mut entries, &mut self.entries);
        let entry = Entry { name, balancer };
        let ghost view = entry_view(entry);
        match found {
            Some(i) => {
                entries.set(i, entry);
                proof {
                    lemma_pairs_map_update(before, i as int, view.0, view.1);
                    assert(entry_views(entries@) =~= before.update(i as int, view));
                }
            },
            None => {
                entries.push(entry);
                proof {
                    lemma_pairs_map_push(before, view.0, view.1);
                    assert(entry_views(entries@) =~= before.push(view));
                }
            },
        }
        self.entries = entries;
    }

    /// Sets the upstreams up as the settings say.
    pub fn init(&mut self, configs: &Vec<UpstreamConfig>)
        ensures
            final(self)@ == with_configs(old(self)@, configs@),
    {
        let mut i: usize = 0;
        while i < configs.len()
            invariant
                i <= configs.len(),
                self@ == with_configs(old(self)@, configs@.take(i as int)),
            decreases configs.len() - i,
        {
            assert(configs@.take(i + 1).drop_last() =~= configs@.take(i as int));
            let cfg = &configs[i];
            let targets = make_targets(&cfg.targets);
            self.insert(cfg.name.clone(), make_balancer(cfg.lb.as_str(), targets));
            i += 1;
        }
        assert(configs@.take(i as int) =~= configs@);
    }

    /// Picks the address for a request that is to go to the named upstream.
    pub fn next_url(&mut self, name: &str, key: Option<&str>) -> (r: Option<String>)
        ensures
            r is Some <==> routed_url(old(self)@, name@, key_view(key)) is Some,
            r matches Some(url) ==> url@ == routed_url(old(self)@, name@, key_view(key))->0,
            final(self)@ == after_routing(old(self)@, name@),
    {
        let found = match self.position(name) {
            Some(i) => Some(i),
            None => self.position(DEFAULT_UPSTREAM),
        };
        match found {
            Some(i) => {
                proof {
                    use_type_invariant(&*self);
                }
                let ghost before = entry_views(self.entries@);
                let mut entries: Vec<Entry> = Vec::new();
                std::mem::swap(&mut entries, &mut self.entries);
                let url = entries[i].balancer.inner.next(key);
                proof {
                    let view = entry_view(entries@[i as int]);
                    lemma_pairs_map_update(before, i as int, view.0, view.1);
                    assert(entry_views(entries@) =~= before.update(i as int, view));
                }
                self.entries = entries;
                url
            },
            None => None,
        }
    }

    /// Takes note that a request for the named upstream, which went to the
    /// address, is over.
    pub fn release(&mut self, name: &str, url: &str)
        ensures
            final(self)@ == after_request(old(self)@, name@, url@),
    {
        let found = match self.position(name) {
            Some(i) => Some(i),
            None => self.position(DEFAULT_UPSTREAM),
        };
        if let Some(i) = found {
            proof {
                use_type_invariant(&*self);
            }
            let ghost before = entry_views(self.entries@);
            let mut entries: Vec<Entry> = Vec::new();
            std::mem::swap(&mut entries, &mut self.entries);
            entries[i].balancer.inner.release(url);
            proof {
                let view = entry_view(entries@[i as int]);
                lemma_pairs_map_update(before, i as int, view.0, view.1);
                assert(entry_views(entries@) =~= before.update(i as int, view));
            }
            self.entries = entries;
        }
    }

    /// Plans one round of health checks.
    pub fn health_probes(&self, configs: &Vec<UpstreamConfig>) -> (r: Vec<Probe>)
        ensures
            probe_views(r@) == planned_probes(self@, configs@),
    {
        let mut out: Vec<Probe> = Vec::new();
        assert(probe_views(out@) =~= seq![]);
        let mut i: usize = 0;
        while i < configs.len()
            invariant
                i <= configs.len(),
                probe_views(out@) == planned_probes(self@, configs@.take(i as int)),
            decreases configs.len() - i,
        {
            assert(configs@.take(i + 1).drop_last() =~= configs@.take(i as int));
            let cfg = &configs[i];
            match self.position(cfg.name.as_str()) {
                Some(at) => {
                    let targets = self.entries[at].balancer.inner.targets();
                    let ghost members = self@[cfg.name@].members;
                    let ghost before = probe_views(out@);
                    let ghost here = upstream_probes(
                        cfg.name@,
                        members,
                        cfg.health_check_path@,
                    );
                    let mut j: usize = 0;
                    while j < targets.len()
                        invariant
                            j <= targets.len(),
                            targets@ == members,
                            here == upstream_probes(cfg.name@, members, cfg.health_check_path@),
                            probe_views(out@) == before + here.take(j as int),
                        decreases targets.len() - j,
                    {
                        let url = targets[j].url.clone().concat(cfg.health_check_path.as_str());
                        let probe = Probe { upstream: cfg.name.clone(), index: j, url };
                        let ghost so_far = out@;
                        out.push(probe);
                        assert(probe@ == here[j as int]);
                        assert(probe_views(out@) =~= probe_views(so_far).push(probe@));
                        assert(here.take(j + 1) =~= here.take(j as int).push(here[j as int]));
                        assert(probe_views(out@) =~= before + here.take(j + 1));
                        j += 1;
                    }
                    assert(here.take(j as int) =~= here);
                },
                None => {
                    assert(planned_probes(self@, configs@.take(i as int)) + seq![] =~= planned_probes(
                        self@,
                        configs@.take(i as int),
                    ));
                },
            }
            i += 1;
        }
        assert(configs@.take(i as int) =~= configs@);
        out
    }

    /// Notes what a probe of a target found.
    pub fn record_health(&mut self, upstream: &str, index: usize, alive: bool)
        ensures
            final(self)@ == after_probe(old(self)@, upstream@, index as int, alive),
    {
        match self.position(upstream) {
            Some(i) => {
                if index < self.entries[i].balancer.inner.targets().len() {
                    proof {
                        use_type_invariant(&*self);
                    }
                    let ghost before = entry_views(self.entries@);
                    let mut entries: Vec<Entry> = Vec::new();
                    std::mem::swap(&mut entries, &mut self.entries);
                    entries[i].balancer.inner.set_alive(index, alive);
                    proof {
                        let view = entry_view(entries@[i as int]);
                        lemma_pairs_map_update(before, i as int, view.0, view.1);
                        assert(entry_views(entries@) =~= before.update(i as int, view));
                    }
                    self.entries = entries;
                }
            },
            None => {},
        }
    }
}

fn make_targets(urls: &Vec<String>) -> (r: Vec<Target>)
    ensures
        r@ == fresh_targets(urls@),
{
    let mut out: Vec<Target> = Vec::new();
    let mut i: usize = 0;
    while i < urls.len()
        invariant
            i <= urls.len(),
            out@ == fresh_targets(urls@).take(i as int),
        decreases urls.len() - i,
    {
        out.push(Target::new(urls[i].clone()));
        assert(fresh_targets(urls@).take(i + 1) =~= fresh_targets(urls@).take(i as int).push(
            fresh_targets(urls@)[i as int],
        ));
        i += 1;
    }
    assert(fresh_targets(urls@).take(i as int) =~= fresh_targets(urls@));
    out
}

/// Where a name stands in the settings for the last time, its upstream is as
/// described there.
pub proof fn law_last_config_wins(
    upstreams: Map<Seq<char>, Upstream>,
    configs: Seq<UpstreamConfig>,
    i: int,
)
    requires
        0 <= i < configs.len(),
        forall|j: int| i < j < configs.len() ==> (#[trigger] configs[j]).name@ != configs[i].name@,
    ensures
        with_configs(upstreams, configs).contains_key(configs[i].name@),
        with_configs(upstreams, configs)[configs[i].name@] == configured(configs[i]),
    decreases configs.len(),
{
    if i < configs.len() - 1 {
        let rest = configs.drop_last();
        assert forall|j: int| i < j < rest.len() implies (#[trigger] rest[j]).name@
            != rest[i].name@ by {
            assert(configs[j].name@ != configs[i].name@);
        }
        law_last_config_wins(upstreams, rest, i);
        assert(configs[configs.len() - 1].name@ != configs[i].name@);
    }
}

/// Settings leave the upstreams that they do not name as they were.
pub proof fn law_other_upstreams_kept(
    upstreams: Map<Seq<char>, Upstream>,
    configs: Seq<UpstreamConfig>,
    name: Seq<char>,
)
    requires
        forall|j: int| 0 <= j < configs.len() ==> (#[trigger] configs[j]).name@ != name,
    ensures
        with_configs(upstreams, configs).contains_key(name) == upstreams.contains_key(name),
        upstreams.contains_key(name) ==> with_configs(upstreams, configs)[name] == upstreams[name],
    decreases configs.len(),
{
    if configs.len() > 0 {
        let rest = configs.drop_last();
        assert forall|j: int| 0 <= j < rest.len() implies (#[trigger] rest[j]).name@ != name by {
            assert(configs[j].name@ != name);
        }
        law_other_upstreams_kept(upstreams, rest, name);
        assert(configs[configs.len() - 1].name@ != name);
    }
}

/// A name that no upstream has is routed as the default upstream is.
pub proof fn law_unknown_name_goes_to_default(
    upstreams: Map<Seq<char>, Upstream>,
    name: Seq<char>,
    key: Option<Seq<char>>,
)
    requires
        !upstreams.contains_key(name),
    ensures
        routed_url(upstreams, name, key) == routed_url(upstreams, DEFAULT_UPSTREAM@, key),
        after_routing(upstreams, name) == after_routing(upstreams, DEFAULT_UPSTREAM@),
{
}

/// A request is only ever routed to a target that is alive, and it is routed
/// whenever the upstream that serves it has one.
pub proof fn law_routed_to_live_target(
    upstreams: Map<Seq<char>, Upstream>,
    name: Seq<char>,
    key: Option<Seq<char>>,
)
    ensures
        routed_url(upstreams, name, key) is Some <==> {
            &&& serving(upstreams, name) is Some
            &&& exists|i: int|
                0 <= i < upstreams[serving(upstreams, name)->0].members.len() && (
                #[trigger] upstreams[serving(upstreams, name)->0].members[i]).alive
        },
        routed_url(upstreams, name, key) matches Some(url) ==> exists|i: int|
            0 <= i < upstreams[serving(upstreams, name)->0].members.len() && (
            #[trigger] upstreams[serving(upstreams, name)->0].members[i]).alive
                && upstreams[serving(upstreams, name)->0].members[i].url@ == url,
{
    match serving(upstreams, name) {
        Some(n) => {
            law_answers_with_live_target(
                upstreams[n].policy,
                upstreams[n].members,
                key,
            );
        },
        None => {},
    }
}

/// A failed probe marks its target as not alive, and a good one as alive.
pub proof fn law_probe_marks_target(
    upstreams: Map<Seq<char>, Upstream>,
    name: Seq<char>,
    index: int,
)
    requires
        upstreams.contains_key(name),
        0 <= index < upstreams[name].members.len(),
    ensures
        !after_probe(upstreams, name, index, false)[name].members[index].alive,
        after_probe(upstreams, name, index, true)[name].members[index].alive,
{
}

/// A probe changes nothing but the one target that it was for.
pub proof fn law_probe_touches_one_target(
    upstreams: Map<Seq<char>, Upstream>,
    name: Seq<char>,
    index: int,
    alive: bool,
    other: Seq<char>,
    i: int,
)
    requires
        upstreams.contains_key(other),
        0 <= i < upstreams[other].members.len(),
        other != name || i != index,
    ensures
        after_probe(upstreams, name, index, alive).dom() == upstreams.dom(),
        after_probe(upstreams, name, index, alive)[other].policy == upstreams[other].policy,
        after_probe(upstreams, name, index, alive)[other].members[i]
            == upstreams[other].members[i],
{
    assert(after_probe(upstreams, name, index, alive).dom() =~= upstreams.dom());
}

/// While a request is under way it counts as one open connection to the address
/// that it was routed to, where the upstream goes by that count; once it is over,
/// it counts no more. To any other address as many are open as before.
pub proof fn law_request_counts_while_open(
    upstreams: Map<Seq<char>, Upstream>,
    name: Seq<char>,
    key: Option<Seq<char>>,
    url: Seq<char>,
    any: Seq<char>,
)
    requires
        routed_url(upstreams, name, key) == Some(url),
        upstreams[serving(upstreams, name)->0].policy is LeastConn,
        forall|i: int|
            0 <= i < upstreams[serving(upstreams, name)->0].members.len() ==> (
            #[trigger] upstreams[serving(upstreams, name)->0].members[i]).active < usize::MAX,
    ensures
        ({
            let n = serving(upstreams, name)->0;
            let during = after_routing(upstreams, name);
            let after = after_request(during, name, url);
            &&& open_to(during[n].members, any) == open_to(upstreams[n].members, any) + (if any
                == url {
                1int
            } else {
                0int
            })
            &&& open_to(after[n].members, any) == open_to(upstreams[n].members, any)
        }),
{
    let n = serving(upstreams, name)->0;
    law_pick_is_counted(upstreams[n].members, key, any);
    law_release_undoes_pick(upstreams[n].members, key, url, any);
}

/// Something that happens to the upstreams.
pub enum PoolEvent {
    /// A request for a name, with a key, asked for its address.
    Asked { name: Seq<char>, key: Option<Seq<char>> },
    /// A request for a name that went to an address is over.
    Over { name: Seq<char>, url: Seq<char> },
    /// A probe of a target came back.
    Probed { name: Seq<char>, index: int, alive: bool },
}

/// The upstreams after something happened.
pub open spec fn after_event(
    upstreams: Map<Seq<char>, Upstream>,
    event: PoolEvent,
) -> Map<Seq<char>, Upstream> {
    match event {
        PoolEvent::Asked { name, key } => after_routing(upstreams, name),
        PoolEvent::Over { name, url } => after_request(upstreams, name, url),
        PoolEvent::Probed { name, index, alive } => after_probe(upstreams, name, index, alive),
    }
}

/// The upstreams after one thing happened after the other.
pub open spec fn after_course(
    upstreams: Map<Seq<char>, Upstream>,
    events: Seq<PoolEvent>,
) -> Map<Seq<char>, Upstream>
    decreases events.len(),
{
    if events.len() == 0 {
        upstreams
    } else {
        after_event(after_course(upstreams, events.drop_last()), events.last())
    }
}

/// How many of the requests that an upstream serves are open to an address: those
/// that were given it less those that are over. The end of a request that is not
/// open counts for nothing.
pub open spec fn open_requests(
    upstreams: Map<Seq<char>, Upstream>,
    events: Seq<PoolEvent>,
    served_by: Seq<char>,
    address: Seq<char>,
) -> nat
    decreases events.len(),
{
    if events.len() == 0 {
        0
    } else {
        let before = open_requests(upstreams, events.drop_last(), served_by, address);
        let state = after_course(upstreams, events.drop_last());
        match events.last() {
            PoolEvent::Asked { name, key } => if serving(state, name) == Some(served_by)
                && routed_url(state, name, key) == Some(address) {
                before + 1
            } else {
                before
            },
            PoolEvent::Over { name, url } => if serving(state, name) == Some(served_by) && url
                == address && before > 0 {
                (before - 1) as nat
            } else {
                before
            },
            PoolEvent::Probed { name, index, alive } => before,
        }
    }
}

proof fn lemma_open_requests_bound(
    upstreams: Map<Seq<char>, Upstream>,
    events: Seq<PoolEvent>,
    served_by: Seq<char>,
    address: Seq<char>,
)
    ensures
        open_requests(upstreams, events, served_by, address) <= events.len(),
    decreases events.len(),
{
    if events.len() > 0 {
        lemma_open_requests_bound(upstreams, events.drop_last(), served_by, address);
    }
}

/// Whatever requests come and go, and whatever probes find: to each address of an
/// upstream that goes by open connections as many are counted as requests are
/// open to it. The upstream starts out with none, and less happens than can be
/// counted.
pub proof fn law_open_requests_are_counted(
    upstreams: Map<Seq<char>, Upstream>,
    events: Seq<PoolEvent>,
    served_by: Seq<char>,
    address: Seq<char>,
)
    requires
        upstreams.contains_key(served_by),
        upstreams[served_by].policy is LeastConn,
        forall|i: int|
            0 <= i < upstreams[served_by].members.len() ==> (
            #[trigger] upstreams[served_by].members[i]).active == 0,
        events.len() < usize::MAX,
    ensures
        after_course(upstreams, events).dom() == upstreams.dom(),
        after_course(upstreams, events)[served_by].policy is LeastConn,
        open_to(after_course(upstreams, events)[served_by].members, address) == open_requests(
            upstreams,
            events,
            served_by,
            address,
        ),
    decreases events.len(),
{
    if events.len() == 0 {
        lemma_none_open(upstreams[served_by].members, address);
    } else {
        let rest = events.drop_last();
        let state = after_course(upstreams, rest);
        let members = state[served_by].members;
        law_open_requests_are_counted(upstreams, rest, served_by, address);
        assert forall|i: int| 0 <= i < members.len() implies (#[trigger] members[i]).active
            < usize::MAX by {
            let url = members[i].url@;
            law_open_requests_are_counted(upstreams, rest, served_by, url);
            lemma_open_requests_bound(upstreams, rest, served_by, url);
            lemma_open_at_least(members, url, i);
        }
        assert(after_event(state, events.last()).dom() =~= state.dom());
        match events.last() {
            PoolEvent::Asked { name, key } => {
                if serving(state, name) == Some(served_by) && routed_url(state, name, key) is Some {
                    law_pick_is_counted(members, key, address);
                }
            },
            PoolEvent::Over { name, url } => {
                if serving(state, name) == Some(served_by) {
                    law_release_takes_one_off(members, url, address);
                }
            },
            PoolEvent::Probed { name, index, alive } => {
                if name == served_by && 0 <= index < members.len() {
                    lemma_open_to_update(
                        members,
                        index,
                        with_alive(members, index, alive)[index],
                        address,
                    );
                }
            },
        }
    }
}

proof fn lemma_none_open(members: Seq<Target>, url: Seq<char>)
    requires
        forall|i: int| 0 <= i < members.len() ==> (#[trigger] members[i]).active == 0,
    ensures
        open_to(members, url) == 0,
    decreases members.len(),
{
    if members.len() > 0 {
        let rest = members.drop_last();
        assert forall|i: int| 0 <= i < rest.len() implies (#[trigger] rest[i]).active == 0 by {
            assert(members[i].active == 0);
        }
        lemma_none_open(rest, url);
        assert(members[members.len() - 1].active == 0);
    }
}

/// A round of health checks asks every target, alive or not, and nobody else:
/// there is a probe for each target of each upstream that is set up, at its
/// address and the path of the setting, and there is no other probe.
pub proof fn law_every_target_is_probed(
    upstreams: Map<Seq<char>, Upstream>,
    configs: Seq<UpstreamConfig>,
    probe: ProbeView,
)
    ensures
        planned_probes(upstreams, configs).contains(probe) <==> exists|c: int|
            0 <= c < configs.len() && (#[trigger] configs[c]).name@ == probe.0
                && upstreams.contains_key(configs[c].name@) && 0 <= probe.1
                < upstreams[configs[c].name@].members.len() && probe.2
                == upstreams[configs[c].name@].members[probe.1].url@
                + configs[c].health_check_path@,
    decreases configs.len(),
{
    if configs.len() > 0 {
        let rest = configs.drop_last();
        let last = configs.last();
        let n = configs.len() - 1;
        let all = planned_probes(upstreams, configs);
        let before = planned_probes(upstreams, rest);
        law_every_target_is_probed(upstreams, rest, probe);
        law_round_grows_by_setting(upstreams, rest, last);
        assert(rest.push(last) =~= configs);
        assert(configs[n] == last);
        if all.contains(probe) {
            let k = choose|k: int| 0 <= k < all.len() && all[k] == probe;
            if k < before.len() {
                assert(before[k] == probe);
                let c = choose|c: int|
                    0 <= c < rest.len() && (#[trigger] rest[c]).name@ == probe.0
                        && upstreams.contains_key(rest[c].name@) && 0 <= probe.1
                        < upstreams[rest[c].name@].members.len() && probe.2
                        == upstreams[rest[c].name@].members[probe.1].url@
                        + rest[c].health_check_path@;
                assert(configs[c] == rest[c]);
            } else {
                assert(all[before.len() + (k - before.len())] == probe);
                assert(configs[n].name@ == probe.0);
            }
        }
        if exists|c: int|
            0 <= c < configs.len() && (#[trigger] configs[c]).name@ == probe.0
                && upstreams.contains_key(configs[c].name@) && 0 <= probe.1
                < upstreams[configs[c].name@].members.len() && probe.2
                == upstreams[configs[c].name@].members[probe.1].url@
                + configs[c].health_check_path@ {
            let c = choose|c: int|
                0 <= c < configs.len() && (#[trigger] configs[c]).name@ == probe.0
                    && upstreams.contains_key(configs[c].name@) && 0 <= probe.1
                    < upstreams[configs[c].name@].members.len() && probe.2
                    == upstreams[configs[c].name@].members[probe.1].url@
                    + configs[c].health_check_path@;
            if c < n {
                assert(rest[c] == configs[c]);
                assert(before.contains(probe));
                let k = choose|k: int| 0 <= k < before.len() && before[k] == probe;
                assert(all[k] == probe);
            } else {
                assert(all[before.len() + probe.1] == probe);
            }
        }
    }
}

/// One more setting adds one probe for each target of its upstream, alive or not,
/// in their order; a setting without an upstream adds none.
pub proof fn law_round_grows_by_setting(
    upstreams: Map<Seq<char>, Upstream>,
    configs: Seq<UpstreamConfig>,
    cfg: UpstreamConfig,
)
    ensures
        planned_probes(upstreams, seq![]).len() == 0,
        ({
            let before = planned_probes(upstreams, configs);
            let after = planned_probes(upstreams, configs.push(cfg));
            let members = upstreams[cfg.name@].members;
            &&& !upstreams.contains_key(cfg.name@) ==> after == before
            &&& upstreams.contains_key(cfg.name@) ==> {
                &&& after.len() == before.len() + members.len()
                &&& forall|k: int| 0 <= k < before.len() ==> #[trigger] after[k] == before[k]
                &&& forall|k: int|
                    before.len() <= k < after.len() ==> {
                        let i = k - before.len();
                        #[trigger] after[k] == (
                            cfg.name@,
                            i,
                            members[i].url@ + cfg.health_check_path@,
                        )
                    }
            }
        }),
{
    assert(configs.push(cfg).drop_last() =~= configs);
    let before = planned_probes(upstreams, configs);
    if !upstreams.contains_key(cfg.name@) {
        assert(planned_probes(upstreams, configs.push(cfg)) =~= before);
    }
}

/// A target counts as alive exactly if there is an answer to its probe, with a
/// status of success or 404; there is none to ask for at what is no address.
pub proof fn law_health(url: Seq<char>, status: u16)
    ensures
        healthy(url, Some(status)) <==> valid_uri(url) && (status / 100 == 2 || status == 404),
        !healthy(url, None),
{
}

/// Each address of a setting becomes one target, in its order, alive and without
/// connections.
pub proof fn law_targets_start_fresh(cfg: UpstreamConfig)
    ensures
        configured(cfg).members.len() == cfg.targets@.len(),
        forall|i: int|
            0 <= i < cfg.targets@.len() ==> {
                let t = #[trigger] configured(cfg).members[i];
                t.url == cfg.targets@[i] && t.alive && t.active == 0
            },
        cfg.lb@ == "least_conn"@ ==> configured(cfg).policy is LeastConn,
        cfg.lb@ == "consistent_hash"@ ==> configured(cfg).policy is ConsistentHash,
        cfg.lb@ != "least_conn"@ && cfg.lb@ != "consistent_hash"@ ==> configured(cfg).policy == (
        Policy::RoundRobin { counter: 0 }),
{
    law_balancers_by_name(cfg.lb@);
}

/// A request goes to the upstream that it names; only where there is no such
/// upstream does it go to the one named `default`, and where that is missing too
/// to none.
pub proof fn law_named_upstream_serves(
    upstreams: Map<Seq<char>, Upstream>,
    name: Seq<char>,
    key: Option<Seq<char>>,
)
    ensures
        upstreams.contains_key(name) ==> {
            &&& serving(upstreams, name) == Some(name)
            &&& routed_url(upstreams, name, key) == answer(
                upstreams[name].policy,
                upstreams[name].members,
                key,
            )
        },
        !upstreams.contains_key(name) && upstreams.contains_key("default"@) ==> {
            &&& serving(upstreams, name) == Some("default"@)
            &&& routed_url(upstreams, name, key) == answer(
                upstreams["default"@].policy,
                upstreams["default"@].members,
                key,
            )
        },
        !upstreams.contains_key(name) && !upstreams.contains_key("default"@) ==> {
            &&& serving(upstreams, name) is None
            &&& routed_url(upstreams, name, key) is None
        },
{
}

/// Routing a request, and its end, are noted at the upstream that serves it, and
/// leave every other upstream as it was.
pub proof fn law_routing_touches_one_upstream(
    upstreams: Map<Seq<char>, Upstream>,
    name: Seq<char>,
    url: Seq<char>,
    other: Seq<char>,
)
    requires
        upstreams.contains_key(other),
    ensures
        after_routing(upstreams, name).dom() == upstreams.dom(),
        after_request(upstreams, name, url).dom() == upstreams.dom(),
        serving(upstreams, name) == Some(other) ==> {
            let u = upstreams[other];
            let routed = after_routing(upstreams, name)[other];
            let over = after_request(upstreams, name, url)[other];
            &&& routed.policy == u.policy.after(live(u.members))
            &&& routed.members == u.policy.picked(u.members)
            &&& over.policy == u.policy
            &&& over.members == u.policy.released(u.members, url)
        },
        serving(upstreams, name) != Some(other) ==> {
            &&& after_routing(upstreams, name)[other] == upstreams[other]
            &&& after_request(upstreams, name, url)[other] == upstreams[other]
        },
{
    assert(after_routing(upstreams, name).dom() =~= upstreams.dom());
    assert(after_request(upstreams, name, url).dom() =~= upstreams.dom());
}

/// A probe of a target that is not there changes nothing; any other notes what it
/// found and keeps the target's address and connections.
pub proof fn law_probe_is_noted(
    upstreams: Map<Seq<char>, Upstream>,
    name: Seq<char>,
    index: int,
    alive: bool,
)
    ensures
        !upstreams.contains_key(name) ==> after_probe(upstreams, name, index, alive) == upstreams,
        upstreams.contains_key(name) && !(0 <= index < upstreams[name].members.len())
            ==> after_probe(upstreams, name, index, alive) == upstreams,
        upstreams.contains_key(name) && 0 <= index < upstreams[name].members.len() ==> {
            let before = upstreams[name].members[index];
            let after = after_probe(upstreams, name, index, alive)[name].members;
            &&& after.len() == upstreams[name].members.len()
            &&& after[index].alive == alive
            &&& after[index].url == before.url
            &&& after[index].active == before.active
        },
{
}

/// A target that a probe found down is asked again in the next round, and is back
/// once a probe finds it up.
pub proof fn law_failed_target_comes_back(
    upstreams: Map<Seq<char>, Upstream>,
    configs: Seq<UpstreamConfig>,
    c: int,
    index: int,
)
    requires
        0 <= c < configs.len(),
        upstreams.contains_key(configs[c].name@),
        0 <= index < upstreams[configs[c].name@].members.len(),
    ensures
        ({
            let name = configs[c].name@;
            let down = after_probe(upstreams, name, index, false);
            let url = upstreams[name].members[index].url@ + configs[c].health_check_path@;
            &&& !down[name].members[index].alive
            &&& planned_probes(down, configs).contains((name, index, url))
            &&& after_probe(down, name, index, true)[name].members[index].alive
        }),
{
    let name = configs[c].name@;
    let down = after_probe(upstreams, name, index, false);
    let url = upstreams[name].members[index].url@ + configs[c].health_check_path@;
    law_every_target_is_probed(down, configs, (name, index, url));
}

/// The course of events is what it says: one more event is applied to what the
/// events before it led to.
pub proof fn law_course_event_by_event(
    upstreams: Map<Seq<char>, Upstream>,
    events: Seq<PoolEvent>,
    name: Seq<char>,
    key: Option<Seq<char>>,
    url: Seq<char>,
    index: int,
    alive: bool,
)
    ensures
        after_course(upstreams, seq![]) == upstreams,
        after_course(upstreams, events.push(PoolEvent::Asked { name, key })) == after_routing(
            after_course(upstreams, events),
            name,
        ),
        after_course(upstreams, events.push(PoolEvent::Over { name, url })) == after_request(
            after_course(upstreams, events),
            name,
            url,
        ),
        after_course(upstreams, events.push(PoolEvent::Probed { name, index, alive }))
            == after_probe(after_course(upstreams, events), name, index, alive),
{
    assert(events.push(PoolEvent::Asked { name, key }).drop_last() =~= events);
    assert(events.push(PoolEvent::Over { name, url }).drop_last() =~= events);
    assert(events.push(PoolEvent::Probed { name, index, alive }).drop_last() =~= events);
}

/// A probe is seen as what it is, in its place among the others, and a round of
/// them is due every five seconds.
pub proof fn law_probe_is_seen_whole(probes: Seq<Probe>, i: int)
    requires
        0 <= i < probes.len(),
    ensures
        probe_views(probes).len() == probes.len(),
        probe_views(probes)[i] == (probes[i].upstream@, probes[i].index as int, probes[i].url@),
        HEALTH_CHECK_SECONDS == 5,
{
}

} // verus!
