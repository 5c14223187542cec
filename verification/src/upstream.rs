//! Upstream servers: network addresses, per-upstream enablement, and the
//! load-balancing strategies that pick one enabled upstream per request.

use vstd::prelude::*;

use crate::strutil::{dec_digits, push_char, push_dec};

verus! {

/// A backend server address: either a fully-qualified `host[:port]` string or
/// a structured IPv4 address `(o1, o2, o3, o4, port)`.
#[derive(Debug, PartialEq, Eq, Hash)]
pub enum UpstreamAddress {
    FQDN(String),
    IPv4((u8, u8, u8, u8, u16)),
}

/// The mathematical form of an address.
pub enum AddressView {
    Fqdn(Seq<char>),
    Ip { o1: u8, o2: u8, o3: u8, o4: u8, port: u16 },
}

impl View for UpstreamAddress {
    type V = AddressView;

    open spec fn view(&self) -> AddressView {
        match self {
            UpstreamAddress::FQDN(s) => AddressView::Fqdn(s@),
            UpstreamAddress::IPv4(t) => AddressView::Ip {
                o1: t.0,
                o2: t.1,
                o3: t.2,
                o4: t.3,
                port: t.4,
            },
        }
    }
}

/// The string form of an address: the host string itself for an FQDN, and
/// `o1.o2.o3.o4:port` in canonical decimal for an IPv4 address.
pub open spec fn address_chars(a: AddressView) -> Seq<char> {
    match a {
        AddressView::Fqdn(s) => s,
        AddressView::Ip { o1, o2, o3, o4, port } => dec_digits(o1 as nat) + seq!['.'] + dec_digits(
            o2 as nat,
        ) + seq!['.'] + dec_digits(o3 as nat) + seq!['.'] + dec_digits(o4 as nat) + seq![':']
            + dec_digits(port as nat),
    }
}

impl Clone for UpstreamAddress {
    fn clone(&self) -> (r: Self)
        ensures
            r@ == self@,
    {
        match self {
            UpstreamAddress::FQDN(s) => UpstreamAddress::FQDN(s.clone()),
            UpstreamAddress::IPv4(t) => UpstreamAddress::IPv4((t.0, t.1, t.2, t.3, t.4)),
        }
    }
}

impl UpstreamAddress {
    /// The address in string form.
    pub fn to_string(&self) -> (r: String)
        ensures
            r@ == address_chars(self@),
    {
        match self {
            UpstreamAddress::FQDN(s) => s.clone(),
            UpstreamAddress::IPv4(t) => {
                let mut r = String::new();
                push_dec(&mut r, t.0 as u64);
                push_char(&mut r, '.');
                push_dec(&mut r, t.1 as u64);
                push_char(&mut r, '.');
                push_dec(&mut r, t.2 as u64);
                push_char(&mut r, '.');
                push_dec(&mut r, t.3 as u64);
                push_char(&mut r, ':');
                push_dec(&mut r, t.4 as u64);
                proof {
                    assert(r@ =~= address_chars(self@));
                }
                r
            },
        }
    }
}

/// Whether two addresses are the same value.
pub fn address_eq(a: &UpstreamAddress, b: &UpstreamAddress) -> (r: bool)
    ensures
        r == (a@ == b@),
{
    match (a, b) {
        (UpstreamAddress::FQDN(x), UpstreamAddress::FQDN(y)) => String::eq(x, y),
        (UpstreamAddress::IPv4(x), UpstreamAddress::IPv4(y)) => x.0 == y.0 && x.1 == y.1 && x.2
            == y.2 && x.3 == y.3 && x.4 == y.4,
        _ => false,
    }
}

/// An upstream server: an address and whether traffic may be routed to it.
#[derive(Debug, PartialEq, Eq, Hash)]
pub struct Upstream {
    pub address: UpstreamAddress,
    pub enabled: bool,
}

/// The mathematical form of an upstream.
pub struct UpstreamView {
    pub address: AddressView,
    pub enabled: bool,
}

impl View for Upstream {
    type V = UpstreamView;

    open spec fn view(&self) -> UpstreamView {
        UpstreamView { address: self.address@, enabled: self.enabled }
    }
}

impl Clone for Upstream {
    fn clone(&self) -> (r: Self)
        ensures
            r@ == self@,
    {
        Upstream { address: self.address.clone(), enabled: self.enabled }
    }
}

impl Upstream {
    /// A fresh, enabled upstream at the given host name.
    pub fn build_from_fqdn(fqdn: &str) -> (r: Self)
        ensures
            r@ == (UpstreamView { address: AddressView::Fqdn(fqdn@), enabled: true }),
    {
        Upstream { address: UpstreamAddress::FQDN(fqdn.to_owned()), enabled: true }
    }

    /// A fresh, enabled upstream at the given IPv4 address.
    pub fn build_from_ipv4(ipv4: (u8, u8, u8, u8, u16)) -> (r: Self)
        ensures
            r@ == (UpstreamView {
                address: AddressView::Ip {
                    o1: ipv4.0,
                    o2: ipv4.1,
                    o3: ipv4.2,
                    o4: ipv4.3,
                    port: ipv4.4,
                },
                enabled: true,
            }),
    {
        Upstream { address: UpstreamAddress::IPv4(ipv4), enabled: true }
    }

    /// Marks this upstream as accepting traffic.
    pub fn enable(&mut self)
        ensures
            final(self)@ == (UpstreamView { enabled: true, ..old(self)@ }),
    {
        self.enabled = true;
    }

    /// Marks this upstream as rejecting traffic.
    pub fn disable(&mut self)
        ensures
            final(self)@ == (UpstreamView { enabled: false, ..old(self)@ }),
    {
        self.enabled = false;
    }
}

/// Whether two upstreams are the same value (address and enablement).
pub fn upstream_eq(a: &Upstream, b: &Upstream) -> (r: bool)
    ensures
        r == (a@ == b@),
{
    address_eq(&a.address, &b.address) && a.enabled == b.enabled
}

/// A load-balancing policy over an owned list of upstreams.
#[derive(Debug, PartialEq)]
pub enum UpstreamStrategy {
    /// Always picks the first enabled upstream, in list order.
    AlwaysFirst { upstreams: Vec<Upstream> },
    /// Rotates over the enabled upstreams, starting each pick at `next_index`.
    RoundRobin { upstreams: Vec<Upstream>, next_index: usize },
}

/// The mathematical form of a strategy.
pub enum StrategyView {
    AlwaysFirst { upstreams: Seq<UpstreamView> },
    RoundRobin { upstreams: Seq<UpstreamView>, next_index: int },
}

impl View for UpstreamStrategy {
    type V = StrategyView;

    open spec fn view(&self) -> StrategyView {
        match self {
            UpstreamStrategy::AlwaysFirst { upstreams } => StrategyView::AlwaysFirst {
                upstreams: upstreams@.map_values(|u: Upstream| u@),
            },
            UpstreamStrategy::RoundRobin { upstreams, next_index } => StrategyView::RoundRobin {
                upstreams: upstreams@.map_values(|u: Upstream| u@),
                next_index: *next_index as int,
            },
        }
    }
}

/// The mathematical form of an optional upstream.
pub open spec fn opt_upstream_view(r: Option<Upstream>) -> Option<UpstreamView> {
    match r {
        Some(u) => Some(u@),
        None => None,
    }
}

/// The upstream list a strategy owns, disabled entries included.
pub open spec fn strategy_upstreams(s: StrategyView) -> Seq<UpstreamView> {
    match s {
        StrategyView::AlwaysFirst { upstreams } => upstreams,
        StrategyView::RoundRobin { upstreams, .. } => upstreams,
    }
}

/// The position of the first enabled upstream at or after position `from`,
/// in plain list order.
pub open spec fn first_enabled_from(ups: Seq<UpstreamView>, from: int) -> Option<int>
    decreases ups.len() - from,
{
    if from < 0 || from >= ups.len() {
        None
    } else if ups[from].enabled {
        Some(from)
    } else {
        first_enabled_from(ups, from + 1)
    }
}

/// The position `j` steps after `base`, wrapping once past `len`.
/// Meant for `0 <= base < len` and `0 <= j < len`.
pub open spec fn wrap_pos(len: int, base: int, j: int) -> int {
    if base + j < len {
        base + j
    } else {
        base + j - len
    }
}

/// The position the round-robin scan lands on: the first enabled entry among
/// the positions `j` steps after `base`, for `j` in `scanned .. len`.
pub open spec fn round_robin_pick(ups: Seq<UpstreamView>, base: int, scanned: nat) -> Option<int>
    decreases ups.len() - scanned,
{
    if scanned >= ups.len() {
        None
    } else {
        let i = wrap_pos(ups.len() as int, base, scanned as int);
        if ups[i].enabled {
            Some(i)
        } else {
            round_robin_pick(ups, base, scanned + 1)
        }
    }
}

/// Where a round-robin scan starts: the stored index, reduced into the list.
pub open spec fn rr_base(ups: Seq<UpstreamView>, next_index: int) -> int {
    if ups.len() == 0 {
        0
    } else {
        next_index % (ups.len() as int)
    }
}

/// What one `next` call does to a strategy: the strategy afterwards, and the
/// upstream it returns.
pub open spec fn spec_strategy_next(s: StrategyView) -> (StrategyView, Option<UpstreamView>) {
    match s {
        StrategyView::AlwaysFirst { upstreams } => {
            match first_enabled_from(upstreams, 0) {
                Some(i) => (s, Some(upstreams[i])),
                None => (s, None),
            }
        },
        StrategyView::RoundRobin { upstreams, next_index } => {
            match round_robin_pick(upstreams, rr_base(upstreams, next_index), 0) {
                Some(i) => (
                    StrategyView::RoundRobin {
                        upstreams,
                        next_index: (i + 1) % (upstreams.len() as int),
                    },
                    Some(upstreams[i]),
                ),
                None => (s, None),
            }
        },
    }
}

/// The upstream list after enabling or disabling every entry whose address
/// equals `addr`.
pub open spec fn set_enabled(ups: Seq<UpstreamView>, addr: AddressView, on: bool) -> Seq<
    UpstreamView,
> {
    ups.map_values(
        |u: UpstreamView|
            if u.address == addr {
                UpstreamView { enabled: on, ..u }
            } else {
                u
            },
    )
}

/// What enabling or disabling an address does to a strategy: only the
/// matching entries' enablement changes.
pub open spec fn spec_strategy_set_enabled(s: StrategyView, addr: AddressView, on: bool)
    -> StrategyView {
    match s {
        StrategyView::AlwaysFirst { upstreams } => StrategyView::AlwaysFirst {
            upstreams: set_enabled(upstreams, addr, on),
        },
        StrategyView::RoundRobin { upstreams, next_index } => StrategyView::RoundRobin {
            upstreams: set_enabled(upstreams, addr, on),
            next_index,
        },
    }
}

impl Clone for UpstreamStrategy {
    fn clone(&self) -> (r: Self)
        ensures
            r@ == self@,
    {
        match self {
            UpstreamStrategy::AlwaysFirst { upstreams } => UpstreamStrategy::AlwaysFirst {
                upstreams: clone_upstreams(upstreams),
            },
            UpstreamStrategy::RoundRobin { upstreams, next_index } => UpstreamStrategy::RoundRobin {
                upstreams: clone_upstreams(upstreams),
                next_index: *next_index,
            },
        }
    }
}

/// A copy of an upstream list, value for value.
fn clone_upstreams(ups: &Vec<Upstream>) -> (r: Vec<Upstream>)
    ensures
        r@.map_values(|u: Upstream| u@) == ups@.map_values(|u: Upstream| u@),
{
    let mut r: Vec<Upstream> = Vec::new();
    let mut i: usize = 0;
    while i < ups.len()
        invariant
            i <= ups.len(),
            r@.len() == i,
            forall|j: int| 0 <= j < i ==> r@[j]@ == ups@[j]@,
        decreases ups.len() - i,
    {
        r.push(ups[i].clone());
        i = i + 1;
    }
    proof {
        assert(r@.map_values(|u: Upstream| u@) =~= ups@.map_values(|u: Upstream| u@));
    }
    r
}

impl UpstreamStrategy {
    /// Picks one enabled upstream per this strategy's policy, or none when
    /// every upstream is disabled; a round-robin strategy advances its index
    /// past the entry it picked.
    #[verifier::loop_isolation(false)]
    pub fn next(&mut self) -> (r: Option<Upstream>)
        ensures
            final(self)@ == spec_strategy_next(old(self)@).0,
            match r {
                Some(u) => spec_strategy_next(old(self)@).1 == Some(u@),
                None => spec_strategy_next(old(self)@).1 is None,
            },
    {
        match self {
            UpstreamStrategy::AlwaysFirst { upstreams } => {
                match find_first_enabled(upstreams) {
                    Some(i) => Some(upstreams[i].clone()),
                    None => None,
                }
            },
            UpstreamStrategy::RoundRobin { upstreams, next_index } => {
                let ghost ups = upstreams@.map_values(|u: Upstream| u@);
                let len = upstreams.len();
                if len == 0 {
                    proof {
                        assert(round_robin_pick(ups, rr_base(ups, *next_index as int), 0) is None);
                    }
                    return None;
                }
                let base = *next_index % len;
                let ghost gbase = rr_base(ups, old(self)@->RoundRobin_next_index);
                let mut scanned: usize = 0;
                while scanned < len
                    invariant
                        0 < len == upstreams.len(),
                        scanned <= len,
                        0 <= base < len,
                        base as int == gbase,
                        *next_index as int == old(self)@->RoundRobin_next_index,
                        ups == upstreams@.map_values(|u: Upstream| u@),
                        old(self)@ == (StrategyView::RoundRobin {
                            upstreams: ups,
                            next_index: old(self)@->RoundRobin_next_index,
                        }),
                        gbase == rr_base(ups, old(self)@->RoundRobin_next_index),
                        round_robin_pick(ups, gbase, 0) == round_robin_pick(
                            ups,
                            gbase,
                            scanned as nat,
                        ),
                    decreases len - scanned,
                {
                    let i = if scanned < len - base {
                        base + scanned
                    } else {
                        scanned - (len - base)
                    };
                    proof {
                        assert(i as int == wrap_pos(len as int, gbase, scanned as int));
                    }
                    if upstreams[i].enabled {
                        proof {
                            assert(ups[i as int].enabled);
                            assert(round_robin_pick(ups, gbase, scanned as nat) == Some(i as int));
                        }
                        let picked = upstreams[i].clone();
                        *next_index = (i + 1) % len;
                        return Some(picked);
                    }
                    proof {
                        assert(!ups[i as int].enabled);
                        assert(round_robin_pick(ups, gbase, scanned as nat) == round_robin_pick(
                            ups,
                            gbase,
                            scanned as nat + 1,
                        ));
                    }
                    scanned = scanned + 1;
                }
                proof {
                    assert(round_robin_pick(ups, gbase, ups.len() as nat) is None);
                }
                None
            },
        }
    }

    /// Borrows the full upstream list, disabled entries included.
    pub fn get_upstreams(&self) -> (r: &Vec<Upstream>)
        ensures
            r@.map_values(|u: Upstream| u@) == strategy_upstreams(self@),
    {
        match self {
            UpstreamStrategy::AlwaysFirst { upstreams } => upstreams,
            UpstreamStrategy::RoundRobin { upstreams, .. } => upstreams,
        }
    }

    /// Enables every upstream in the list whose address equals the given one.
    pub fn enable_upstream(&mut self, upstream_address: &UpstreamAddress)
        ensures
            final(self)@ == spec_strategy_set_enabled(old(self)@, upstream_address@, true),
    {
        match self {
            UpstreamStrategy::AlwaysFirst { upstreams } => {
                set_enabled_exec(upstreams, upstream_address, true);
            },
            UpstreamStrategy::RoundRobin { upstreams, .. } => {
                set_enabled_exec(upstreams, upstream_address, true);
            },
        }
    }

    /// Disables every upstream in the list whose address equals the given one.
    pub fn disable_upstream(&mut self, upstream_address: &UpstreamAddress)
        ensures
            final(self)@ == spec_strategy_set_enabled(old(self)@, upstream_address@, false),
    {
        match self {
            UpstreamStrategy::AlwaysFirst { upstreams } => {
                set_enabled_exec(upstreams, upstream_address, false);
            },
            UpstreamStrategy::RoundRobin { upstreams, .. } => {
                set_enabled_exec(upstreams, upstream_address, false);
            },
        }
    }
}

/// The position of the first enabled upstream in plain list order.
fn find_first_enabled(ups: &Vec<Upstream>) -> (r: Option<usize>)
    ensures
        match r {
            Some(i) => 0 <= i < ups@.len() && first_enabled_from(
                ups@.map_values(|u: Upstream| u@),
                0,
            ) == Some(i as int),
            None => first_enabled_from(ups@.map_values(|u: Upstream| u@), 0) is None,
        },
{
    let ghost views = ups@.map_values(|u: Upstream| u@);
    let mut i: usize = 0;
    while i < ups.len()
        invariant
            i <= ups.len(),
            views == ups@.map_values(|u: Upstream| u@),
            first_enabled_from(views, 0) == first_enabled_from(views, i as int),
        decreases ups.len() - i,
    {
        if ups[i].enabled {
            proof {
                assert(views[i as int].enabled);
                assert(first_enabled_from(views, i as int) == Some(i as int));
            }
            return Some(i);
        }
        proof {
            assert(!views[i as int].enabled);
            assert(first_enabled_from(views, i as int) == first_enabled_from(views, i as int + 1));
        }
        i = i + 1;
    }
    proof {
        assert(first_enabled_from(views, views.len() as int) is None);
    }
    None
}

/// Flips the enablement flag on every entry whose address equals `addr`.
fn set_enabled_exec(ups: &mut Vec<Upstream>, addr: &UpstreamAddress, on: bool)
    ensures
        final(ups)@.map_values(|u: Upstream| u@) == set_enabled(
            old(ups)@.map_values(|u: Upstream| u@),
            addr@,
            on,
        ),
{
    let ghost orig = old(ups)@.map_values(|u: Upstream| u@);
    let mut i: usize = 0;
    while i < ups.len()
        invariant
            i <= ups.len(),
            ups@.len() == old(ups)@.len(),
            orig == old(ups)@.map_values(|u: Upstream| u@),
            forall|j: int|
                0 <= j < i ==> ups@.map_values(|u: Upstream| u@)[j] == set_enabled(orig, addr@, on)[j],
            forall|j: int| i <= j < ups@.len() ==> ups@[j] == old(ups)@[j],
        decreases ups.len() - i,
    {
        if address_eq(&ups[i].address, addr) {
            if on {
                if !ups[i].enabled {
                    let mut u = ups[i].clone();
                    u.enabled = true;
                    ups.set(i, u);
                }
            } else {
                if ups[i].enabled {
                    let mut u = ups[i].clone();
                    u.enabled = false;
                    ups.set(i, u);
                }
            }
        }
        proof {
            assert(ups@.map_values(|u: Upstream| u@)[i as int] == set_enabled(orig, addr@, on)[i as int]);
        }
        i = i + 1;
    }
    proof {
        assert(ups@.map_values(|u: Upstream| u@) =~= set_enabled(orig, addr@, on));
    }
}


/// What a found first-enabled position means: it lies in range at or after
/// the start, and its entry is enabled.
pub proof fn lemma_first_enabled_props(ups: Seq<UpstreamView>, from: int)
    requires
        0 <= from,
    ensures
        match first_enabled_from(ups, from) {
            Some(i) => from <= i < ups.len() && ups[i].enabled,
            None => forall|j: int| from <= j < ups.len() ==> !(#[trigger] ups[j]).enabled,
        },
    decreases ups.len() - from,
{
    if from < 0 || from >= ups.len() {
    } else if ups[from].enabled {
    } else {
        lemma_first_enabled_props(ups, from + 1);
    }
}

/// What a found round-robin position means: it lies in range and its entry
/// is enabled; a miss means nothing at the scanned offsets is enabled.
pub proof fn lemma_round_robin_pick_props(ups: Seq<UpstreamView>, base: int, scanned: nat)
    requires
        0 <= base < ups.len(),
    ensures
        match round_robin_pick(ups, base, scanned) {
            Some(i) => 0 <= i < ups.len() && ups[i].enabled,
            None => forall|j: int|
                scanned <= j < ups.len() ==> !ups[wrap_pos(ups.len() as int, base, j)].enabled,
        },
    decreases ups.len() - scanned,
{
    if scanned < ups.len() {
        lemma_round_robin_pick_props(ups, base, scanned + 1);
    }
}

/// A strategy step returns one of its own upstreams, enabled, and leaves
/// the upstream list itself unchanged.
pub proof fn lemma_strategy_next_props(s: StrategyView)
    ensures
        strategy_upstreams(spec_strategy_next(s).0) == strategy_upstreams(s),
        spec_strategy_next(s).1 matches Some(u) ==> strategy_upstreams(s).contains(u) && u.enabled,
        spec_strategy_next(s).1 is None ==> forall|j: int|
            0 <= j < strategy_upstreams(s).len() ==> !(#[trigger] strategy_upstreams(s)[j]).enabled,
{
    match s {
        StrategyView::AlwaysFirst { upstreams } => {
            lemma_first_enabled_props(upstreams, 0);
        },
        StrategyView::RoundRobin { upstreams, next_index } => {
            if upstreams.len() > 0 {
                lemma_round_robin_pick_props(upstreams, rr_base(upstreams, next_index), 0);
                match round_robin_pick(upstreams, rr_base(upstreams, next_index), 0) {
                    Some(i) => {},
                    None => {
                        assert forall|j: int|
                            0 <= j < upstreams.len() implies !(#[trigger] upstreams[j]).enabled by {
                            let b = rr_base(upstreams, next_index);
                            let n = upstreams.len() as int;
                            let off = if j >= b {
                                j - b
                            } else {
                                j + n - b
                            };
                            assert(wrap_pos(n, b, off) == j);
                            assert(!upstreams[wrap_pos(n, b, off)].enabled);
                        }
                    },
                }
            }
        },
    }
}

/// The sequence of upstreams that a run of `count` strategy steps returns,
/// and the strategy it leaves behind.
pub open spec fn spec_strategy_run(s: StrategyView, count: nat) -> (StrategyView, Seq<UpstreamView>)
    decreases count,
{
    if count == 0 {
        (s, Seq::empty())
    } else {
        let stepped = spec_strategy_next(s);
        let rest = spec_strategy_run(stepped.0, (count - 1) as nat);
        (
            rest.0,
            match stepped.1 {
                Some(u) => seq![u] + rest.1,
                None => rest.1,
            },
        )
    }
}

/// Round-robin fairness: over `n` all-enabled upstreams, `n` successive
/// steps return every upstream exactly once - the list rotated to start at
/// the scan position - and bring the rotation back to where it began.
pub proof fn lemma_round_robin_fair(ups: Seq<UpstreamView>, next_index: int)
    requires
        ups.len() > 0,
        next_index >= 0,
        forall|j: int| 0 <= j < ups.len() ==> (#[trigger] ups[j]).enabled,
    ensures
        spec_strategy_run(
            (StrategyView::RoundRobin { upstreams: ups, next_index }),
            ups.len(),
        ).1 == ups.skip(rr_base(ups, next_index)) + ups.take(rr_base(ups, next_index)),
        spec_strategy_run(
            (StrategyView::RoundRobin { upstreams: ups, next_index }),
            ups.len(),
        ).0 == (StrategyView::RoundRobin {
            upstreams: ups,
            next_index: rr_base(ups, next_index),
        }),
{
    let n = ups.len() as int;
    let b = rr_base(ups, next_index);
    assert(0 <= next_index % n < n) by (nonlinear_arith)
        requires
            n > 0,
            next_index >= 0,
    ;
    assert(b == next_index % n);
    lemma_rr_rotation(ups, b, ups.len());
    assert(ups.skip(b) + ups.take(b) =~= rotation_from(ups, b, ups.len()));
    let s0 = StrategyView::RoundRobin { upstreams: ups, next_index };
    let sb = StrategyView::RoundRobin { upstreams: ups, next_index: b };
    assert(b % n == b) by (nonlinear_arith)
        requires
            0 <= b < n,
    ;
    assert(rr_base(ups, b) == b);
    assert(spec_strategy_next(s0) == spec_strategy_next(sb));
    assert(spec_strategy_run(s0, ups.len()) == spec_strategy_run(sb, ups.len()));
}

/// The rotation starting at `b`, `count` entries long.
pub open spec fn rotation_from(ups: Seq<UpstreamView>, b: int, count: nat) -> Seq<UpstreamView> {
    Seq::new(count, |j: int| ups[wrap_pos(ups.len() as int, b, j)])
}

/// Running `count <= n` steps of an all-enabled round robin from a reduced
/// index returns the next `count` entries in rotation order and advances
/// the index `count` positions.
pub proof fn lemma_rr_rotation(ups: Seq<UpstreamView>, b: int, count: nat)
    requires
        0 <= b < ups.len(),
        count <= ups.len(),
        forall|j: int| 0 <= j < ups.len() ==> (#[trigger] ups[j]).enabled,
    ensures
        spec_strategy_run((StrategyView::RoundRobin { upstreams: ups, next_index: b }), count).1
            =~= rotation_from(ups, b, count),
        spec_strategy_run((StrategyView::RoundRobin { upstreams: ups, next_index: b }), count).0
            == (StrategyView::RoundRobin {
            upstreams: ups,
            next_index: wrap_pos(ups.len() as int, b, count as int),
        }),
    decreases count,
{
    let n = ups.len() as int;
    let s = StrategyView::RoundRobin { upstreams: ups, next_index: b };
    assert(b % n == b) by (nonlinear_arith)
        requires
            0 <= b < n,
    ;
    assert(rr_base(ups, b) == b);
    if count == 0 {
        assert(wrap_pos(n, b, 0) == b);
    } else {
        assert(round_robin_pick(ups, b, 0) == Some(b)) by {
            assert(wrap_pos(n, b, 0) == b);
            assert(ups[b].enabled);
        }
        let stepped = spec_strategy_next(s);
        assert(stepped.1 == Some(ups[b]));
        let b2 = (b + 1) % n;
        assert(b2 == if b + 1 < n {
            b + 1
        } else {
            0
        }) by (nonlinear_arith)
            requires
                0 <= b < n,
                b2 == (b + 1) % n,
        ;
        assert(stepped.0 == (StrategyView::RoundRobin { upstreams: ups, next_index: b2 }));
        lemma_rr_rotation(ups, b2, (count - 1) as nat);
        assert(spec_strategy_run(s, count).1 =~= rotation_from(ups, b, count)) by {
            assert(forall|j: int|
                0 <= j < count - 1 ==> rotation_from(ups, b2, (count - 1) as nat)[j] == ups[
                    #[trigger] wrap_pos(n, b2, j)]);
            assert(forall|j: int| 1 <= j < count ==> wrap_pos(n, b2, j - 1) == wrap_pos(n, b, j));
        }
        assert(wrap_pos(n, b2, count as int - 1) == wrap_pos(n, b, count as int));
    }
}

} // verus!
