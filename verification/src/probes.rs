//! The probe supervisor's bookkeeping: one reference count per distinct
//! upstream address, fed by route additions and removals. A count moving
//! away from zero asks for a probe task to be spawned; a count reaching
//! zero asks for its task to be cancelled. Spawning, sleeping and
//! connecting happen outside the library; the registry only decides.

use vstd::prelude::*;

use crate::events::Command;
use crate::poller::{spec_failure_tick, spec_success_tick, Poller};
use crate::route::Route;
use crate::settings::{ProbeSettings, ProbeSettingsView};
use crate::upstream::{address_chars, address_eq, AddressView, UpstreamAddress};

verus! {

/// The reference counts: one row per probed address.
pub struct ProbeRegistry {
    counters: Vec<(UpstreamAddress, u64)>,
    defaults: Vec<ProbeSettings>,
}

/// The mathematical form of the registry.
pub struct ProbeRegistryView {
    pub counters: Seq<(AddressView, u64)>,
    pub defaults: Seq<ProbeSettingsView>,
}

impl View for ProbeRegistry {
    type V = ProbeRegistryView;

    closed spec fn view(&self) -> ProbeRegistryView {
        ProbeRegistryView {
            counters: self.counters@.map_values(|e: (UpstreamAddress, u64)| (e.0@, e.1)),
            defaults: self.defaults@.map_values(|p: ProbeSettings| p@),
        }
    }
}

/// The position of an address among the counter rows.
pub open spec fn find_addr(cs: Seq<(AddressView, u64)>, a: AddressView) -> Option<int>
    decreases cs.len(),
{
    if cs.len() == 0 {
        None
    } else if cs[0].0 == a {
        Some(0)
    } else {
        match find_addr(cs.drop_first(), a) {
            Some(i) => Some(i + 1),
            None => None,
        }
    }
}

/// How many live routes reference an address.
pub open spec fn count_of(cs: Seq<(AddressView, u64)>, a: AddressView) -> nat {
    match find_addr(cs, a) {
        Some(i) => cs[i].1 as nat,
        None => 0,
    }
}

/// No two rows count the same address.
pub open spec fn unique_addrs(cs: Seq<(AddressView, u64)>) -> bool {
    forall|i: int, j: int| 0 <= i < j < cs.len() ==> cs[i].0 != cs[j].0
}

/// What one reference does to the counter rows: a fresh address starts at
/// one, a known address grows by one (stopping at the counter's maximum).
pub open spec fn spec_add_ref(cs: Seq<(AddressView, u64)>, a: AddressView) -> Seq<
    (AddressView, u64),
> {
    match find_addr(cs, a) {
        Some(i) => cs.update(
            i,
            (
                a,
                if cs[i].1 == u64::MAX {
                    u64::MAX
                } else {
                    (cs[i].1 + 1) as u64
                },
            ),
        ),
        None => cs.push((a, 1u64)),
    }
}

/// What dropping one reference does: a count of one removes the row, a
/// larger count shrinks by one, an unknown address changes nothing.
pub open spec fn spec_drop_ref(cs: Seq<(AddressView, u64)>, a: AddressView) -> Seq<
    (AddressView, u64),
> {
    match find_addr(cs, a) {
        Some(i) => if cs[i].1 <= 1 {
            cs.remove(i)
        } else {
            cs.update(i, (a, (cs[i].1 - 1) as u64))
        },
        None => cs,
    }
}

/// What `find_addr` says of the rows: a found position carries the address
/// and is the first to do so; a miss means no row carries it.
pub proof fn lemma_find_addr_props(cs: Seq<(AddressView, u64)>, a: AddressView)
    ensures
        match find_addr(cs, a) {
            Some(i) => 0 <= i < cs.len() && cs[i].0 == a && (forall|j: int|
                0 <= j < i ==> cs[j].0 != a),
            None => forall|j: int| 0 <= j < cs.len() ==> cs[j].0 != a,
        },
    decreases cs.len(),
{
    if cs.len() == 0 {
    } else if cs[0].0 == a {
    } else {
        lemma_find_addr_props(cs.drop_first(), a);
        assert(forall|j: int| 1 <= j < cs.len() ==> cs[j] == cs.drop_first()[j - 1]);
    }
}

impl ProbeRegistry {
    /// Rows count distinct addresses, each at least once.
    pub open spec fn wf(&self) -> bool {
        &&& unique_addrs(self@.counters)
        &&& forall|j: int| 0 <= j < self@.counters.len() ==> (#[trigger] self@.counters[j]).1 >= 1
    }

    /// A registry with no probes, remembering the configured per-upstream
    /// settings.
    pub fn build(default_probes: Option<Vec<ProbeSettings>>) -> (r: Self)
        ensures
            r.wf(),
            r@.counters.len() == 0,
            match default_probes {
                Some(v) => r@.defaults == v@.map_values(|p: ProbeSettings| p@),
                None => r@.defaults.len() == 0,
            },
    {
        let defaults = match default_probes {
            Some(v) => v,
            None => Vec::new(),
        };
        ProbeRegistry { counters: Vec::new(), defaults }
    }

    /// Takes one reference on an address. Returns the address exactly when
    /// its count moved away from zero, meaning a probe must be spawned.
    pub fn add_probe(&mut self, to_add: &UpstreamAddress) -> (r: Option<UpstreamAddress>)
        requires
            old(self).wf(),
        ensures
            final(self).wf(),
            final(self)@.counters == spec_add_ref(old(self)@.counters, to_add@),
            final(self)@.defaults == old(self)@.defaults,
            match r {
                Some(a) => a@ == to_add@ && count_of(old(self)@.counters, to_add@) == 0,
                None => count_of(old(self)@.counters, to_add@) > 0,
            },
    {
        let ghost cs = self@.counters;
        proof {
            lemma_find_addr_props(cs, to_add@);
        }
        let mut i: usize = 0;
        while i < self.counters.len()
            invariant
                i <= self.counters.len(),
                cs == self@.counters,
                cs == old(self)@.counters,
                old(self).wf(),
                self@.defaults == old(self)@.defaults,
                forall|j: int| 0 <= j < i ==> cs[j].0 != to_add@,
            decreases self.counters.len() - i,
        {
            proof {
                assert(cs[i as int] == (self.counters@[i as int].0@, self.counters@[i as int].1));
            }
            if address_eq(&self.counters[i].0, to_add) {
                proof {
                    lemma_find_addr_props(cs, to_add@);
                    assert(find_addr(cs, to_add@) == Some(i as int));
                }
                let old_count = self.counters[i].1;
                let new_count = if old_count == u64::MAX {
                    u64::MAX
                } else {
                    old_count + 1
                };
                let ghost prev = self@.counters;
                self.counters.set(i, (to_add.clone(), new_count));
                proof {
                    assert(self@.counters =~= prev.update(i as int, (to_add@, new_count)));
                    assert(forall|x: int|
                        0 <= x < self@.counters.len() ==> self@.counters[x].0 == cs[x].0);
                }
                return None;
            }
            i = i + 1;
        }
        proof {
            lemma_find_addr_props(cs, to_add@);
            assert(find_addr(cs, to_add@) is None);
        }
        let ghost prev = self@.counters;
        self.counters.push((to_add.clone(), 1));
        proof {
            assert(self@.counters =~= prev.push((to_add@, 1u64)));
        }
        Some(to_add.clone())
    }

    /// Drops one reference on an address. Returns the address exactly when
    /// its count reached zero, meaning its probe must be cancelled.
    pub fn remove_probe(&mut self, to_remove: &UpstreamAddress) -> (r: Option<UpstreamAddress>)
        requires
            old(self).wf(),
        ensures
            final(self).wf(),
            final(self)@.counters == spec_drop_ref(old(self)@.counters, to_remove@),
            final(self)@.defaults == old(self)@.defaults,
            match r {
                Some(a) => a@ == to_remove@ && count_of(old(self)@.counters, to_remove@) == 1,
                None => count_of(old(self)@.counters, to_remove@) != 1,
            },
    {
        let ghost cs = self@.counters;
        proof {
            lemma_find_addr_props(cs, to_remove@);
        }
        let mut i: usize = 0;
        while i < self.counters.len()
            invariant
                i <= self.counters.len(),
                cs == self@.counters,
                old(self).wf(),
                cs == old(self)@.counters,
                self@.defaults == old(self)@.defaults,
                forall|j: int| 0 <= j < i ==> cs[j].0 != to_remove@,
            decreases self.counters.len() - i,
        {
            proof {
                assert(cs[i as int] == (self.counters@[i as int].0@, self.counters@[i as int].1));
            }
            if address_eq(&self.counters[i].0, to_remove) {
                proof {
                    lemma_find_addr_props(cs, to_remove@);
                    assert(find_addr(cs, to_remove@) == Some(i as int));
                }
                let count = self.counters[i].1;
                if count <= 1 {
                    let ghost prev = self@.counters;
                    self.counters.remove(i);
                    proof {
                        assert(self@.counters =~= prev.remove(i as int));
                        assert(forall|x: int|
                            0 <= x < self@.counters.len() ==> self@.counters[x] == (if x < i as int {
                                cs[x]
                            } else {
                                cs[x + 1]
                            }));
                    }
                    return Some(to_remove.clone());
                } else {
                    let ghost prev = self@.counters;
                    self.counters.set(i, (to_remove.clone(), count - 1));
                    proof {
                        assert(self@.counters =~= prev.update(
                            i as int,
                            (to_remove@, (count - 1) as u64),
                        ));
                        assert(forall|x: int|
                            0 <= x < self@.counters.len() ==> self@.counters[x].0 == cs[x].0);
                    }
                    return None;
                }
            }
            i = i + 1;
        }
        proof {
            lemma_find_addr_props(cs, to_remove@);
            assert(find_addr(cs, to_remove@) is None);
        }
        None
    }

    /// The probe settings for an address: the configured entry whose
    /// upstream string equals the address's string form, the defaults
    /// otherwise. A later configuration entry overrides an earlier one.
    pub fn probe_settings_for(&self, upstream_address: &UpstreamAddress) -> (r: ProbeSettings)
        ensures
            r@ == spec_settings_for(self@.defaults, address_chars(upstream_address@)),
    {
        let ghost ds = self@.defaults;
        let wanted = upstream_address.to_string();
        let mut j: usize = self.defaults.len();
        proof {
            assert(ds.take(j as int) =~= ds);
        }
        while j > 0
            invariant
                j <= self.defaults.len(),
                ds == self@.defaults,
                wanted@ == address_chars(upstream_address@),
                spec_settings_for(ds, wanted@) == spec_settings_for(ds.take(j as int), wanted@),
            decreases j,
        {
            let j2 = j - 1;
            proof {
                assert(ds.take(j as int).drop_last() =~= ds.take(j2 as int));
                assert(ds.take(j as int).last() == ds[j2 as int]);
                assert(ds[j2 as int] == self.defaults@[j2 as int]@);
            }
            if String::eq(&self.defaults[j2].upstream_address, &wanted) {
                return self.defaults[j2].clone_settings();
            }
            j = j2;
        }
        proof {
            assert(ds.take(0) =~= Seq::<ProbeSettingsView>::empty());
        }
        ProbeSettings::default(wanted.as_str())
    }
}

/// The settings an address string resolves to: the last configured entry
/// for that string, else the defaults.
pub open spec fn spec_settings_for(ds: Seq<ProbeSettingsView>, addr: Seq<char>) -> ProbeSettingsView
    decreases ds.len(),
{
    if ds.len() == 0 {
        ProbeSettingsView {
            upstream_address: addr,
            poll_interval_ms: 1000,
            error_count: 5,
            success_count: 5,
        }
    } else if ds.last().upstream_address == addr {
        ds.last()
    } else {
        spec_settings_for(ds.drop_last(), addr)
    }
}

impl ProbeSettings {
    /// A copy of these settings, value for value.
    pub fn clone_settings(&self) -> (r: Self)
        ensures
            r@ == self@,
    {
        ProbeSettings {
            upstream_address: self.upstream_address.clone(),
            poll_interval_ms: self.poll_interval_ms,
            error_count: self.error_count,
            success_count: self.success_count,
        }
    }
}

/// What one probe tick decides: the poller takes the success or failure
/// step, and exactly a completed transition emits the enable or disable
/// command for this upstream, under the given correlation id.
pub fn probe_tick(
    poller: &mut Poller,
    connect_ok: bool,
    upstream_address: &UpstreamAddress,
    cmd_id: String,
) -> (r: Option<Command>)
    requires
        old(poller).wf(),
    ensures
        final(poller).wf(),
        connect_ok ==> *final(poller) == spec_success_tick(*old(poller)).0,
        !connect_ok ==> *final(poller) == spec_failure_tick(*old(poller)).0,
        connect_ok && spec_success_tick(*old(poller)).1 ==> (r matches Some(c) && (
        c matches Command::EnableUpstream { id, upstream_address: a } && id@ == cmd_id@ && a@
            == upstream_address@)),
        connect_ok && !spec_success_tick(*old(poller)).1 ==> r is None,
        !connect_ok && spec_failure_tick(*old(poller)).1 ==> (r matches Some(c) && (
        c matches Command::DisableUpstream { id, upstream_address: a } && id@ == cmd_id@ && a@
            == upstream_address@)),
        !connect_ok && !spec_failure_tick(*old(poller)).1 ==> r is None,
{
    if connect_ok {
        let came_up = poller.check_and_enable_upstream();
        if came_up {
            Some(
                Command::EnableUpstream {
                    id: cmd_id,
                    upstream_address: upstream_address.clone(),
                },
            )
        } else {
            None
        }
    } else {
        let went_down = poller.check_and_disable_upstream();
        if went_down {
            Some(
                Command::DisableUpstream {
                    id: cmd_id,
                    upstream_address: upstream_address.clone(),
                },
            )
        } else {
            None
        }
    }
}

/// What a route addition asks of the supervisor: one reference per
/// upstream occurrence, and a spawn for each address whose count left zero.
pub fn probes_on_route_added(registry: &mut ProbeRegistry, route: &Route) -> (spawn: Vec<
    UpstreamAddress,
>)
    requires
        old(registry).wf(),
    ensures
        final(registry).wf(),
        final(registry)@.defaults == old(registry)@.defaults,
        final(registry)@.counters == spec_add_refs(
            old(registry)@.counters,
            crate::upstream::strategy_upstreams(route@.strategy).map_values(
                |u: crate::upstream::UpstreamView| u.address,
            ),
        ),
        spawn@.map_values(|a: UpstreamAddress| a@) == spec_spawns(
            old(registry)@.counters,
            crate::upstream::strategy_upstreams(route@.strategy).map_values(
                |u: crate::upstream::UpstreamView| u.address,
            ),
        ),
{
    let ghost addrs = crate::upstream::strategy_upstreams(route@.strategy).map_values(
        |u: crate::upstream::UpstreamView| u.address,
    );
    let ups = route.get_upstreams();
    let mut spawn: Vec<UpstreamAddress> = Vec::new();
    let mut i: usize = 0;
    while i < ups.len()
        invariant
            i <= ups.len(),
            registry.wf(),
            addrs.len() == ups@.len(),
            forall|j: int| 0 <= j < ups@.len() ==> addrs[j] == ups@[j]@.address,
            registry@.defaults == old(registry)@.defaults,
            registry@.counters == spec_add_refs(old(registry)@.counters, addrs.take(i as int)),
            spawn@.map_values(|a: UpstreamAddress| a@) == spec_spawns(
                old(registry)@.counters,
                addrs.take(i as int),
            ),
        decreases ups.len() - i,
    {
        proof {
            assert(addrs.take(i as int + 1).drop_last() =~= addrs.take(i as int));
            assert(addrs.take(i as int + 1).last() == addrs[i as int]);
        }
        let ghost sp0 = spawn@.map_values(|a: UpstreamAddress| a@);
        match registry.add_probe(&ups[i].address) {
            Some(a) => {
                spawn.push(a);
                proof {
                    assert(spawn@.map_values(|a: UpstreamAddress| a@) =~= sp0.push(
                        addrs[i as int],
                    ));
                }
            },
            None => {},
        }
        i = i + 1;
    }
    proof {
        assert(addrs.take(addrs.len() as int) =~= addrs);
    }
    spawn
}

/// What a route removal asks of the supervisor: one reference dropped per
/// upstream occurrence, and a cancellation for each address whose count
/// reached zero.
pub fn probes_on_route_removed(registry: &mut ProbeRegistry, route: &Route) -> (cancel: Vec<
    UpstreamAddress,
>)
    requires
        old(registry).wf(),
    ensures
        final(registry).wf(),
        final(registry)@.defaults == old(registry)@.defaults,
        final(registry)@.counters == spec_drop_refs(
            old(registry)@.counters,
            crate::upstream::strategy_upstreams(route@.strategy).map_values(
                |u: crate::upstream::UpstreamView| u.address,
            ),
        ),
        cancel@.map_values(|a: UpstreamAddress| a@) == spec_cancels(
            old(registry)@.counters,
            crate::upstream::strategy_upstreams(route@.strategy).map_values(
                |u: crate::upstream::UpstreamView| u.address,
            ),
        ),
{
    let ghost addrs = crate::upstream::strategy_upstreams(route@.strategy).map_values(
        |u: crate::upstream::UpstreamView| u.address,
    );
    let ups = route.get_upstreams();
    let mut cancel: Vec<UpstreamAddress> = Vec::new();
    let mut i: usize = 0;
    while i < ups.len()
        invariant
            i <= ups.len(),
            registry.wf(),
            addrs.len() == ups@.len(),
            forall|j: int| 0 <= j < ups@.len() ==> addrs[j] == ups@[j]@.address,
            registry@.defaults == old(registry)@.defaults,
            registry@.counters == spec_drop_refs(old(registry)@.counters, addrs.take(i as int)),
            cancel@.map_values(|a: UpstreamAddress| a@) == spec_cancels(
                old(registry)@.counters,
                addrs.take(i as int),
            ),
        decreases ups.len() - i,
    {
        proof {
            assert(addrs.take(i as int + 1).drop_last() =~= addrs.take(i as int));
            assert(addrs.take(i as int + 1).last() == addrs[i as int]);
        }
        let ghost c0 = cancel@.map_values(|a: UpstreamAddress| a@);
        match registry.remove_probe(&ups[i].address) {
            Some(a) => {
                cancel.push(a);
                proof {
                    assert(cancel@.map_values(|a: UpstreamAddress| a@) =~= c0.push(
                        addrs[i as int],
                    ));
                }
            },
            None => {},
        }
        i = i + 1;
    }
    proof {
        assert(addrs.take(addrs.len() as int) =~= addrs);
    }
    cancel
}

/// The counter rows after referencing each address in turn.
pub open spec fn spec_add_refs(cs: Seq<(AddressView, u64)>, addrs: Seq<AddressView>) -> Seq<
    (AddressView, u64),
>
    decreases addrs.len(),
{
    if addrs.len() == 0 {
        cs
    } else {
        spec_add_ref(spec_add_refs(cs, addrs.drop_last()), addrs.last())
    }
}

/// The addresses whose count leaves zero while referencing each in turn:
/// exactly those get a new probe, each once.
pub open spec fn spec_spawns(cs: Seq<(AddressView, u64)>, addrs: Seq<AddressView>) -> Seq<
    AddressView,
>
    decreases addrs.len(),
{
    if addrs.len() == 0 {
        Seq::empty()
    } else {
        let before = spec_spawns(cs, addrs.drop_last());
        if count_of(spec_add_refs(cs, addrs.drop_last()), addrs.last()) == 0 {
            before.push(addrs.last())
        } else {
            before
        }
    }
}

/// The counter rows after dropping one reference per address in turn.
pub open spec fn spec_drop_refs(cs: Seq<(AddressView, u64)>, addrs: Seq<AddressView>) -> Seq<
    (AddressView, u64),
>
    decreases addrs.len(),
{
    if addrs.len() == 0 {
        cs
    } else {
        spec_drop_ref(spec_drop_refs(cs, addrs.drop_last()), addrs.last())
    }
}

/// The addresses whose count reaches zero while dropping references in
/// turn: exactly those lose their probe.
pub open spec fn spec_cancels(cs: Seq<(AddressView, u64)>, addrs: Seq<AddressView>) -> Seq<
    AddressView,
>
    decreases addrs.len(),
{
    if addrs.len() == 0 {
        Seq::empty()
    } else {
        let before = spec_cancels(cs, addrs.drop_last());
        if count_of(spec_drop_refs(cs, addrs.drop_last()), addrs.last()) == 1 {
            before.push(addrs.last())
        } else {
            before
        }
    }
}


/// Counter rows with distinct addresses and no dead rows.
pub open spec fn counters_wf(cs: Seq<(AddressView, u64)>) -> bool {
    &&& unique_addrs(cs)
    &&& forall|j: int| 0 <= j < cs.len() ==> (#[trigger] cs[j]).1 >= 1
}

/// Rows with the same addresses resolve every address at the same position.
proof fn lemma_find_addr_same_keys(
    cs1: Seq<(AddressView, u64)>,
    cs2: Seq<(AddressView, u64)>,
    a: AddressView,
)
    requires
        cs1.len() == cs2.len(),
        forall|j: int| 0 <= j < cs1.len() ==> (#[trigger] cs1[j]).0 == cs2[j].0,
    ensures
        find_addr(cs1, a) == find_addr(cs2, a),
    decreases cs1.len(),
{
    if cs1.len() > 0 {
        assert(forall|j: int|
            0 <= j < cs1.drop_first().len() ==> (#[trigger] cs1.drop_first()[j]).0
                == cs2.drop_first()[j].0);
        lemma_find_addr_same_keys(cs1.drop_first(), cs2.drop_first(), a);
    }
}

/// Appending a row resolves old addresses as before, and the new row's
/// address at the end when it was absent.
proof fn lemma_find_addr_push(cs: Seq<(AddressView, u64)>, x: (AddressView, u64), a: AddressView)
    ensures
        find_addr(cs.push(x), a) == (match find_addr(cs, a) {
            Some(i) => Some(i),
            None => if x.0 == a {
                Some(cs.len() as int)
            } else {
                None
            },
        }),
    decreases cs.len(),
{
    if cs.len() == 0 {
        assert(cs.push(x)[0] == x);
        assert(cs.push(x).drop_first() =~= Seq::<(AddressView, u64)>::empty());
        if x.0 == a {
            assert(find_addr(cs.push(x), a) == Some(0int));
        } else {
            assert(find_addr(Seq::<(AddressView, u64)>::empty(), a) is None);
            assert(find_addr(cs.push(x), a) is None);
        }
    } else {
        assert(cs.push(x)[0] == cs[0]);
        assert(cs.push(x).drop_first() =~= cs.drop_first().push(x));
        lemma_find_addr_push(cs.drop_first(), x, a);
        if cs[0].0 == a {
            assert(find_addr(cs.push(x), a) == Some(0int));
        } else {
            assert(find_addr(cs.push(x), a) == (match find_addr(cs.drop_first().push(x), a) {
                Some(i) => Some(i + 1),
                None => None,
            }));
        }
    }
}

/// Taking one reference keeps the rows well formed, drives one count away
/// from zero, and leaves every other count alone.
proof fn lemma_add_ref_count(cs: Seq<(AddressView, u64)>, b: AddressView, a: AddressView)
    requires
        counters_wf(cs),
    ensures
        counters_wf(spec_add_ref(cs, b)),
        a == b ==> count_of(spec_add_ref(cs, b), a) >= 1,
        a != b ==> count_of(spec_add_ref(cs, b), a) == count_of(cs, a),
{
    lemma_find_addr_props(cs, b);
    lemma_find_addr_props(cs, a);
    let out = spec_add_ref(cs, b);
    match find_addr(cs, b) {
        Some(i) => {
            assert(forall|j: int| 0 <= j < cs.len() ==> (#[trigger] out[j]).0 == cs[j].0);
            lemma_find_addr_same_keys(out, cs, a);
            lemma_find_addr_props(out, a);
        },
        None => {
            lemma_find_addr_push(cs, (b, 1u64), a);
            assert(forall|j: int| 0 <= j < cs.len() ==> (#[trigger] out[j]) == cs[j]);
            assert(counters_wf(out)) by {
                assert(forall|j: int|
                    0 <= j < cs.len() ==> (#[trigger] out[j]).0 != b);
            }
        },
    }
}

/// After referencing a list of addresses, a count is still zero exactly
/// when it was zero before and the list never named it.
proof fn lemma_add_refs_count(cs: Seq<(AddressView, u64)>, addrs: Seq<AddressView>, a: AddressView)
    requires
        counters_wf(cs),
    ensures
        counters_wf(spec_add_refs(cs, addrs)),
        (count_of(spec_add_refs(cs, addrs), a) == 0) <==> (count_of(cs, a) == 0 && !addrs.contains(
            a,
        )),
    decreases addrs.len(),
{
    if addrs.len() == 0 {
        assert(!addrs.contains(a));
    } else {
        lemma_add_refs_count(cs, addrs.drop_last(), a);
        lemma_add_ref_count(spec_add_refs(cs, addrs.drop_last()), addrs.last(), a);
        assert(addrs.contains(a) <==> (addrs.drop_last().contains(a) || addrs.last() == a)) by {
            if addrs.contains(a) {
                let k = choose|k: int| 0 <= k < addrs.len() && addrs[k] == a;
                if k < addrs.len() - 1 {
                    assert(addrs.drop_last()[k] == a);
                }
            }
            if addrs.drop_last().contains(a) {
                let k = choose|k: int|
                    0 <= k < addrs.drop_last().len() && addrs.drop_last()[k] == a;
                assert(addrs[k] == a);
            }
            if addrs.last() == a {
                assert(addrs[addrs.len() - 1] == a);
            }
        }
    }
}

/// Spawns are exact: a probe is spawned for an address exactly when some
/// occurrence in the list finds its count at zero, and never twice. With
/// the list taken from a freshly added route, that is one spawn per
/// distinct upstream address not already covered, and none for the rest.
pub proof fn lemma_spawns_exact(cs: Seq<(AddressView, u64)>, addrs: Seq<AddressView>)
    requires
        counters_wf(cs),
    ensures
        forall|a: AddressView|
            #[trigger] spec_spawns(cs, addrs).contains(a) <==> (addrs.contains(a) && count_of(
                cs,
                a,
            ) == 0),
        forall|i: int, j: int|
            0 <= i < j < spec_spawns(cs, addrs).len() ==> spec_spawns(cs, addrs)[i] != spec_spawns(
                cs,
                addrs,
            )[j],
    decreases addrs.len(),
{
    if addrs.len() == 0 {
        assert(forall|a: AddressView| !spec_spawns(cs, addrs).contains(a));
        assert(forall|a: AddressView| !addrs.contains(a));
    } else {
        let prefix = addrs.drop_last();
        let last = addrs.last();
        lemma_spawns_exact(cs, prefix);
        lemma_add_refs_count(cs, prefix, last);
        let before = spec_spawns(cs, prefix);
        let out = spec_spawns(cs, addrs);
        let pushed = count_of(spec_add_refs(cs, prefix), last) == 0;
        assert forall|a: AddressView| #[trigger]
            out.contains(a) <==> (addrs.contains(a) && count_of(cs, a) == 0) by {
            assert(addrs.contains(a) <==> (prefix.contains(a) || last == a)) by {
                if addrs.contains(a) {
                    let k = choose|k: int| 0 <= k < addrs.len() && addrs[k] == a;
                    if k < addrs.len() - 1 {
                        assert(prefix[k] == a);
                    }
                }
                if prefix.contains(a) {
                    let k = choose|k: int| 0 <= k < prefix.len() && prefix[k] == a;
                    assert(addrs[k] == a);
                }
                if last == a {
                    assert(addrs[addrs.len() - 1] == a);
                }
            }
            if pushed {
                assert(out == before.push(last));
                assert(out.contains(a) <==> (before.contains(a) || last == a)) by {
                    if out.contains(a) {
                        let k = choose|k: int| 0 <= k < out.len() && out[k] == a;
                        if k < out.len() - 1 {
                            assert(before[k] == a);
                        }
                    }
                    if before.contains(a) {
                        let k = choose|k: int| 0 <= k < before.len() && before[k] == a;
                        assert(out[k] == a);
                    }
                    if last == a {
                        assert(out[out.len() - 1] == a);
                    }
                }
            } else {
                assert(out == before);
            }
        }
        if pushed {
            assert(out == before.push(last));
            assert(!before.contains(last));
            assert(forall|i: int, j: int|
                0 <= i < j < out.len() ==> out[i] != out[j]) by {
                assert(forall|i: int| 0 <= i < before.len() ==> out[i] == before[i]);
                assert(out[out.len() - 1] == last);
            }
        } else {
            assert(out == before);
        }
    }
}

} // verus!
