//! The wire form of a route: strings only, as the management API and the
//! configuration file carry it. An upstream string that reads as an IPv4
//! literal `o1.o2.o3.o4[:port]` (canonical decimal, port defaulting to 80)
//! becomes a structured address; anything else is a host name.

use vstd::prelude::*;

use crate::route;
use crate::strutil::{dec_digits, digit_char};
use crate::upstream::{
    address_chars, strategy_upstreams, AddressView, StrategyView, Upstream, UpstreamView,
};

verus! {

/// Whether a character is a decimal digit.
pub open spec fn is_digit(c: char) -> bool {
    '0' <= c && c <= '9'
}

/// The value of one digit character.
pub open spec fn digit_val(c: char) -> nat {
    ((c as u32) - 48) as nat
}

/// How many consecutive digits stand at `from`.
pub open spec fn digits_from(s: Seq<char>, from: int) -> int
    decreases s.len() - from,
{
    if from < 0 || from >= s.len() || !is_digit(s[from]) {
        0
    } else {
        1 + digits_from(s, from + 1)
    }
}

/// The value of the digits `s[from .. to]`.
pub open spec fn num_val(s: Seq<char>, from: int, to: int) -> nat
    decreases to - from,
{
    if to <= from {
        0
    } else {
        num_val(s, from, to - 1) * 10 + digit_val(s[to - 1])
    }
}

/// The number starting at `from`, in the canonical form the dotted-decimal
/// grammar accepts: one to `max_digits` digits, no leading zero unless the
/// number is `0` itself, value at most `max_value`. Returns the value and
/// the position after the digits.
pub open spec fn parse_num(s: Seq<char>, from: int, max_digits: int, max_value: nat) -> Option<
    (nat, int),
> {
    let n = digits_from(s, from);
    if n == 0 || n > max_digits {
        None
    } else if n > 1 && s[from] == '0' {
        None
    } else if num_val(s, from, from + n) > max_value {
        None
    } else {
        Some((num_val(s, from, from + n), from + n))
    }
}

/// An octet: up to three digits, at most 255.
pub open spec fn parse_octet(s: Seq<char>, from: int) -> Option<(nat, int)> {
    parse_num(s, from, 3, 255)
}

/// What an IPv4 literal parses to: four canonical octets separated by dots,
/// then either the end of the string or a colon and a canonical port; a
/// missing port is 80.
pub open spec fn parse_ipv4_spec(s: Seq<char>) -> Option<(u8, u8, u8, u8, u16)> {
    match parse_octet(s, 0) {
        None => None,
        Some((o1, p1)) => {
            if p1 >= s.len() || s[p1] != '.' {
                None
            } else {
                match parse_octet(s, p1 + 1) {
                    None => None,
                    Some((o2, p2)) => {
                        if p2 >= s.len() || s[p2] != '.' {
                            None
                        } else {
                            match parse_octet(s, p2 + 1) {
                                None => None,
                                Some((o3, p3)) => {
                                    if p3 >= s.len() || s[p3] != '.' {
                                        None
                                    } else {
                                        match parse_octet(s, p3 + 1) {
                                            None => None,
                                            Some((o4, p4)) => {
                                                if p4 == s.len() {
                                                    Some(
                                                        (
                                                            o1 as u8,
                                                            o2 as u8,
                                                            o3 as u8,
                                                            o4 as u8,
                                                            80u16,
                                                        ),
                                                    )
                                                } else if s[p4] != ':' {
                                                    None
                                                } else {
                                                    match parse_num(s, p4 + 1, 5, 65535) {
                                                        Some((port, p5)) => {
                                                            if p5 == s.len() {
                                                                Some(
                                                                    (
                                                                        o1 as u8,
                                                                        o2 as u8,
                                                                        o3 as u8,
                                                                        o4 as u8,
                                                                        port as u16,
                                                                    ),
                                                                )
                                                            } else {
                                                                None
                                                            }
                                                        },
                                                        None => None,
                                                    }
                                                }
                                            },
                                        }
                                    }
                                },
                            }
                        }
                    },
                }
            }
        },
    }
}

/// Each decimal digit's character carries its value back, and digit
/// characters are digits.
pub proof fn lemma_digit_char_val(d: nat)
    requires
        d <= 9,
    ensures
        is_digit(digit_char(d)),
        digit_val(digit_char(d)) == d,
{
}

/// The canonical decimal form of a number: every character is a digit, the
/// first is `'0'` only for zero itself, and small numbers stay short.
pub proof fn lemma_dec_digits_props(n: nat)
    ensures
        dec_digits(n).len() >= 1,
        forall|j: int| 0 <= j < dec_digits(n).len() ==> is_digit(#[trigger] dec_digits(n)[j]),
        dec_digits(n)[0] == '0' ==> n == 0,
        n < 10 ==> dec_digits(n).len() == 1,
        n < 100 ==> dec_digits(n).len() <= 2,
        n < 1000 ==> dec_digits(n).len() <= 3,
        n < 10000 ==> dec_digits(n).len() <= 4,
        n < 100000 ==> dec_digits(n).len() <= 5,
    decreases n,
{
    if n < 10 {
        lemma_digit_char_val(n);
    } else {
        assert(n / 10 < n) by (nonlinear_arith)
            requires
                n >= 10,
        ;
        assert(n / 10 >= 1) by (nonlinear_arith)
            requires
                n >= 10,
        ;
        assert(n < 100 ==> n / 10 < 10);
        assert(n < 1000 ==> n / 10 < 100);
        assert(n < 10000 ==> n / 10 < 1000);
        assert(n < 100000 ==> n / 10 < 10000);
        lemma_dec_digits_props(n / 10);
        lemma_digit_char_val(n % 10);
        assert(dec_digits(n)[0] == dec_digits(n / 10)[0]);
    }
}

/// The value of a copy of a canonical decimal form is the number itself.
pub proof fn lemma_num_val_of_dec(s: Seq<char>, from: int, to: int, n: nat)
    requires
        0 <= from <= to <= s.len(),
        s.subrange(from, to) =~= dec_digits(n),
    ensures
        num_val(s, from, to) == n,
    decreases n,
{
    lemma_dec_digits_props(n);
    if n < 10 {
        assert(to - from == 1);
        assert(s.subrange(from, to)[0] == s[from]);
        assert(s[from] == dec_digits(n)[0]);
        assert(s[from] == digit_char(n));
        lemma_digit_char_val(n);
        assert(num_val(s, from, to - 1) == 0);
        assert(num_val(s, from, to) == digit_val(s[to - 1]));
    } else {
        assert(n / 10 < n) by (nonlinear_arith)
            requires
                n >= 10,
        ;
        assert(dec_digits(n) == dec_digits(n / 10).push(digit_char(n % 10)));
        assert(s.subrange(from, to - 1) =~= dec_digits(n / 10)) by {
            assert(forall|j: int|
                0 <= j < to - 1 - from ==> s.subrange(from, to - 1)[j] == s.subrange(from, to)[j]);
        }
        lemma_num_val_of_dec(s, from, to - 1, n / 10);
        assert(s.subrange(from, to)[to - 1 - from] == s[to - 1]);
        assert(s[to - 1] == dec_digits(n)[to - from - 1]);
        assert(s[to - 1] == digit_char(n % 10));
        lemma_digit_char_val(n % 10);
        assert(num_val(s, from, to) == (n / 10) * 10 + n % 10);
        assert((n / 10) * 10 + n % 10 == n) by (nonlinear_arith);
    }
}

/// A run of `k` digits bounded by a non-digit or the end scans as exactly
/// `k` digits.
pub proof fn lemma_digits_from_exact(s: Seq<char>, from: int, k: int)
    requires
        0 <= from,
        0 <= k,
        from + k <= s.len(),
        forall|j: int| from <= j < from + k ==> is_digit(#[trigger] s[j]),
        from + k == s.len() || !is_digit(s[from + k]),
    ensures
        digits_from(s, from) == k,
    decreases k,
{
    if k > 0 {
        lemma_digits_from_exact(s, from + 1, k - 1);
    }
}

/// A canonical number written at `from`, bounded by a non-digit or the end,
/// parses back to itself.
pub proof fn lemma_parse_num_canonical(
    s: Seq<char>,
    from: int,
    n: nat,
    max_digits: int,
    max_value: nat,
)
    requires
        0 <= from,
        from + dec_digits(n).len() <= s.len(),
        s.subrange(from, from + dec_digits(n).len() as int) =~= dec_digits(n),
        from + dec_digits(n).len() == s.len() || !is_digit(s[from + dec_digits(n).len()]),
        dec_digits(n).len() <= max_digits,
        n <= max_value,
    ensures
        parse_num(s, from, max_digits, max_value) == Some((n, from + dec_digits(n).len())),
{
    let k = dec_digits(n).len() as int;
    lemma_dec_digits_props(n);
    assert(forall|j: int| from <= j < from + k ==> is_digit(#[trigger] s[j])) by {
        assert(forall|j: int|
            from <= j < from + k ==> s[j] == dec_digits(n)[j - from]);
    }
    lemma_digits_from_exact(s, from, k);
    lemma_num_val_of_dec(s, from, from + k, n);
    assert(s[from] == dec_digits(n)[0]);
}

/// Whether the character at `i` is a decimal digit.
fn digit_at(chars: &Vec<char>, i: usize) -> (r: bool)
    requires
        i < chars@.len(),
    ensures
        r == is_digit(chars@[i as int]),
{
    let c = chars[i];
    c >= '0' && c <= '9'
}

/// Reads one canonical number from the character list, mirroring
/// `parse_num`.
fn scan_num(chars: &Vec<char>, from: usize, max_digits: usize, max_value: u32) -> (r: Option<
    (u32, usize),
>)
    requires
        from <= chars@.len(),
        max_digits <= 5,
        max_value < 0x8000_0000,
    ensures
        match r {
            Some((v, p)) => parse_num(chars@, from as int, max_digits as int, max_value as nat)
                == Some((v as nat, p as int)) && from < p <= chars@.len(),
            None => parse_num(chars@, from as int, max_digits as int, max_value as nat) is None,
        },
{
    let ghost s = chars@;
    let len = chars.len();
    // count the digits standing at `from`
    let mut n: usize = 0;
    while from + n < len && digit_at(chars, from + n)
        invariant
            len == s.len(),
            from + n <= len,
            s == chars@,
            from <= len,
            forall|k: int| from <= k < from + n ==> is_digit(s[k]),
            digits_from(s, from as int) == n + digits_from(s, from as int + n as int),
        decreases s.len() - from - n,
    {
        proof {
            assert(is_digit(s[from as int + n as int]));
            assert(digits_from(s, from as int + n as int) == 1 + digits_from(
                s,
                from as int + n as int + 1,
            ));
        }
        n = n + 1;
    }
    proof {
        assert(digits_from(s, from as int + n as int) == 0);
        assert(digits_from(s, from as int) == n as int);
    }
    if n == 0 || n > max_digits {
        return None;
    }
    if n > 1 && chars[from] == '0' {
        return None;
    }
    // accumulate the value of exactly n digits; n <= 5, so it fits
    let mut v: u32 = 0;
    let mut k: usize = 0;
    while k < n
        invariant
            k <= n,
            n <= 5,
            s == chars@,
            len == s.len(),
            from + n <= len,
            forall|j: int| from <= j < from + n ==> is_digit(s[j]),
            v as nat == num_val(s, from as int, from as int + k as int),
            v <= 99999,
        decreases n - k,
    {
        proof {
            assert(is_digit(s[from as int + k as int]));
            assert(num_val(s, from as int, from as int + k as int + 1) == num_val(
                s,
                from as int,
                from as int + k as int,
            ) * 10 + digit_val(s[from as int + k as int]));
            assert(num_val(s, from as int, from as int + k as int) < 10000) by {
                lemma_num_val_bound(s, from as int, from as int + k as int);
            }
        }
        let c = chars[from + k];
        let d = (c as u32) - 48;
        proof {
            assert(d == digit_val(s[from as int + k as int]));
            assert(d <= 9);
        }
        v = v * 10 + d;
        k = k + 1;
    }
    if v > max_value {
        return None;
    }
    Some((v, from + n))
}

/// The value of up to `to - from` digits stays under `10^(to - from)`; stated
/// for the widths the grammar uses.
proof fn lemma_num_val_bound(s: Seq<char>, from: int, to: int)
    requires
        forall|j: int| from <= j < to ==> is_digit(s[j]),
        to - from <= 5,
    ensures
        to - from <= 0 ==> num_val(s, from, to) == 0,
        to - from == 1 ==> num_val(s, from, to) <= 9,
        to - from == 2 ==> num_val(s, from, to) <= 99,
        to - from == 3 ==> num_val(s, from, to) <= 999,
        to - from == 4 ==> num_val(s, from, to) <= 9999,
        to - from == 5 ==> num_val(s, from, to) <= 99999,
    decreases to - from,
{
    if to > from {
        lemma_num_val_bound(s, from, to - 1);
        assert(is_digit(s[to - 1]));
        assert(digit_val(s[to - 1]) <= 9);
    }
}

/// Reads an IPv4 literal `o1.o2.o3.o4[:port]`, in the canonical decimal
/// form the configuration grammar accepts; the port defaults to 80.
pub fn parse_ipv4(s: &str) -> (r: Option<(u8, u8, u8, u8, u16)>)
    ensures
        r == parse_ipv4_spec(s@),
{
    let n = s.unicode_len();
    let mut chars: Vec<char> = Vec::new();
    let mut i: usize = 0;
    while i < n
        invariant
            i <= n,
            n == s@.len(),
            chars@.len() == i,
            forall|j: int| 0 <= j < i ==> chars@[j] == s@[j],
        decreases n - i,
    {
        chars.push(s.get_char(i));
        i = i + 1;
    }
    proof {
        assert(chars@ =~= s@);
    }
    let o1 = match scan_num(&chars, 0, 3, 255) {
        Some(x) => x,
        None => {
            return None;
        },
    };
    if o1.1 >= chars.len() || chars[o1.1] != '.' {
        return None;
    }
    let o2 = match scan_num(&chars, o1.1 + 1, 3, 255) {
        Some(x) => x,
        None => {
            return None;
        },
    };
    if o2.1 >= chars.len() || chars[o2.1] != '.' {
        return None;
    }
    let o3 = match scan_num(&chars, o2.1 + 1, 3, 255) {
        Some(x) => x,
        None => {
            return None;
        },
    };
    if o3.1 >= chars.len() || chars[o3.1] != '.' {
        return None;
    }
    let o4 = match scan_num(&chars, o3.1 + 1, 3, 255) {
        Some(x) => x,
        None => {
            return None;
        },
    };
    if o4.1 == chars.len() {
        return Some((o1.0 as u8, o2.0 as u8, o3.0 as u8, o4.0 as u8, 80));
    }
    if chars[o4.1] != ':' {
        return None;
    }
    let port = match scan_num(&chars, o4.1 + 1, 5, 65535) {
        Some(x) => x,
        None => {
            return None;
        },
    };
    if port.1 == chars.len() {
        Some((o1.0 as u8, o2.0 as u8, o3.0 as u8, o4.0 as u8, port.0 as u16))
    } else {
        None
    }
}


/// The canonical string form of a structured IPv4 address parses back to
/// exactly that address.
pub proof fn lemma_parse_ipv4_canonical(o1: u8, o2: u8, o3: u8, o4: u8, port: u16)
    ensures
        parse_ipv4_spec(
            address_chars(AddressView::Ip { o1, o2, o3, o4, port }),
        ) == Some((o1, o2, o3, o4, port)),
{
    let s = address_chars(AddressView::Ip { o1, o2, o3, o4, port });
    let d1 = dec_digits(o1 as nat);
    let d2 = dec_digits(o2 as nat);
    let d3 = dec_digits(o3 as nat);
    let d4 = dec_digits(o4 as nat);
    let dp = dec_digits(port as nat);
    lemma_dec_digits_props(o1 as nat);
    lemma_dec_digits_props(o2 as nat);
    lemma_dec_digits_props(o3 as nat);
    lemma_dec_digits_props(o4 as nat);
    lemma_dec_digits_props(port as nat);
    let l1 = d1.len() as int;
    let l2 = d2.len() as int;
    let l3 = d3.len() as int;
    let l4 = d4.len() as int;
    let lp = dp.len() as int;
    let p1 = l1;
    let q2 = p1 + 1;
    let p2 = q2 + l2;
    let q3 = p2 + 1;
    let p3 = q3 + l3;
    let q4 = p3 + 1;
    let p4 = q4 + l4;
    let q5 = p4 + 1;
    let p5 = q5 + lp;
    assert(s.len() == p5);
    assert(forall|j: int| 0 <= j < l1 ==> s[j] == d1[j]);
    assert(s[p1] == '.');
    assert(forall|j: int| 0 <= j < l2 ==> s[q2 + j] == d2[j]);
    assert(s[p2] == '.');
    assert(forall|j: int| 0 <= j < l3 ==> s[q3 + j] == d3[j]);
    assert(s[p3] == '.');
    assert(forall|j: int| 0 <= j < l4 ==> s[q4 + j] == d4[j]);
    assert(s[p4] == ':');
    assert(forall|j: int| 0 <= j < lp ==> s[q5 + j] == dp[j]);
    assert(!is_digit('.'));
    assert(!is_digit(':'));
    assert(s.subrange(0, p1) =~= d1);
    lemma_parse_num_canonical(s, 0, o1 as nat, 3, 255);
    assert(s.subrange(q2, p2) =~= d2);
    lemma_parse_num_canonical(s, q2, o2 as nat, 3, 255);
    assert(s.subrange(q3, p3) =~= d3);
    lemma_parse_num_canonical(s, q3, o3 as nat, 3, 255);
    assert(s.subrange(q4, p4) =~= d4);
    lemma_parse_num_canonical(s, q4, o4 as nat, 3, 255);
    assert(s.subrange(q5, p5) =~= dp);
    lemma_parse_num_canonical(s, q5, port as nat, 5, 65535);
    assert(parse_octet(s, 0) == Some((o1 as nat, p1)));
    assert(parse_octet(s, q2) == Some((o2 as nat, p2)));
    assert(parse_octet(s, q3) == Some((o3 as nat, p3)));
    assert(parse_octet(s, q4) == Some((o4 as nat, p4)));
    assert(parse_num(s, q5, 5, 65535) == Some((port as nat, p5)));
}

/// The load-balancing policy named on the wire, without its state.
#[derive(Clone, Copy, Debug, PartialEq, Eq, Structural)]
pub enum Strategy {
    AlwaysFirst,
    RoundRobin,
}

/// A route as the management API and the configuration file carry it:
/// strings only, upstreams by address, the strategy by name.
#[derive(Clone, Debug, PartialEq)]
pub struct Route {
    pub id: String,
    pub name: String,
    pub methods: Vec<String>,
    pub paths: Vec<String>,
    pub strategy: Strategy,
    pub upstreams: Vec<String>,
}

/// The mathematical form of a wire route.
pub struct WireRouteView {
    pub id: Seq<char>,
    pub name: Seq<char>,
    pub methods: Seq<Seq<char>>,
    pub paths: Seq<Seq<char>>,
    pub strategy: Strategy,
    pub upstreams: Seq<Seq<char>>,
}

impl View for Route {
    type V = WireRouteView;

    open spec fn view(&self) -> WireRouteView {
        WireRouteView {
            id: self.id@,
            name: self.name@,
            methods: self.methods.deep_view(),
            paths: self.paths.deep_view(),
            strategy: self.strategy,
            upstreams: self.upstreams.deep_view(),
        }
    }
}

/// The upstream an address string stands for: a structured address when the
/// string is an IPv4 literal, a host name otherwise; either way enabled.
pub open spec fn upstream_of_chars(s: Seq<char>) -> UpstreamView {
    match parse_ipv4_spec(s) {
        Some((o1, o2, o3, o4, port)) => UpstreamView {
            address: AddressView::Ip { o1, o2, o3, o4, port },
            enabled: true,
        },
        None => UpstreamView { address: AddressView::Fqdn(s), enabled: true },
    }
}

/// What a model route looks like on the wire: the strategy keeps only its
/// name, each upstream only its address string.
pub open spec fn spec_from_model(rv: crate::route::RouteView) -> WireRouteView {
    WireRouteView {
        id: rv.id,
        name: rv.name,
        methods: rv.methods,
        paths: rv.paths,
        strategy: match rv.strategy {
            StrategyView::AlwaysFirst { .. } => Strategy::AlwaysFirst,
            StrategyView::RoundRobin { .. } => Strategy::RoundRobin,
        },
        upstreams: strategy_upstreams(rv.strategy).map_values(
            |u: UpstreamView| address_chars(u.address),
        ),
    }
}

/// What a wire route builds in the model: every upstream fresh and enabled,
/// a round-robin strategy starting at the first entry.
pub open spec fn spec_into_model(sv: WireRouteView) -> crate::route::RouteView {
    crate::route::RouteView {
        id: sv.id,
        name: sv.name,
        methods: sv.methods,
        paths: sv.paths,
        strategy: match sv.strategy {
            Strategy::AlwaysFirst => StrategyView::AlwaysFirst {
                upstreams: sv.upstreams.map_values(|s: Seq<char>| upstream_of_chars(s)),
            },
            Strategy::RoundRobin => StrategyView::RoundRobin {
                upstreams: sv.upstreams.map_values(|s: Seq<char>| upstream_of_chars(s)),
                next_index: 0,
            },
        },
    }
}

impl Route {
    /// The wire form of a model route.
    pub fn from_model(route: &route::Route) -> (r: Self)
        ensures
            r@ == spec_from_model(route@),
    {
        let ups = route.get_upstreams();
        let mut strings: Vec<String> = Vec::new();
        let mut i: usize = 0;
        while i < ups.len()
            invariant
                i <= ups.len(),
                strings@.len() == i,
                forall|j: int| 0 <= j < i ==> strings@[j]@ == address_chars(ups@[j]@.address),
            decreases ups.len() - i,
        {
            strings.push(ups[i].address.to_string());
            i = i + 1;
        }
        let strategy = match &route.strategy {
            crate::upstream::UpstreamStrategy::AlwaysFirst { .. } => Strategy::AlwaysFirst,
            crate::upstream::UpstreamStrategy::RoundRobin { .. } => Strategy::RoundRobin,
        };
        let r = Route {
            id: route.id.clone(),
            name: route.name.clone(),
            methods: crate::route::clone_strings(&route.methods),
            paths: crate::route::clone_strings(&route.paths),
            strategy,
            upstreams: strings,
        };
        proof {
            assert(r@.upstreams =~= spec_from_model(route@).upstreams);
        }
        r
    }

    /// The model route a wire route builds.
    pub fn into_model(&self) -> (r: route::Route)
        ensures
            r@ == spec_into_model(self@),
    {
        let mut ups: Vec<Upstream> = Vec::new();
        let mut i: usize = 0;
        while i < self.upstreams.len()
            invariant
                i <= self.upstreams.len(),
                ups@.len() == i,
                forall|j: int| 0 <= j < i ==> ups@[j]@ == upstream_of_chars(self.upstreams@[j]@),
            decreases self.upstreams.len() - i,
        {
            let s = &self.upstreams[i];
            let u = match parse_ipv4(s.as_str()) {
                Some(t) => Upstream::build_from_ipv4(t),
                None => Upstream::build_from_fqdn(s.as_str()),
            };
            ups.push(u);
            i = i + 1;
        }
        let strategy = match self.strategy {
            Strategy::AlwaysFirst => crate::upstream::UpstreamStrategy::AlwaysFirst {
                upstreams: ups,
            },
            Strategy::RoundRobin => crate::upstream::UpstreamStrategy::RoundRobin {
                upstreams: ups,
                next_index: 0,
            },
        };
        let r = route::Route {
            id: self.id.clone(),
            name: self.name.clone(),
            methods: crate::route::clone_strings(&self.methods),
            paths: crate::route::clone_strings(&self.paths),
            strategy,
        };
        proof {
            assert(strategy_upstreams(r@.strategy) =~= self@.upstreams.map_values(
                |s: Seq<char>| upstream_of_chars(s),
            ));
        }
        r
    }
}

/// A model route that goes out on the wire and comes back is unchanged:
/// the identity holds for routes whose upstreams are all enabled, whose
/// round-robin rotation stands at its start, and whose host names do not
/// read as IPv4 literals.
pub proof fn lemma_route_wire_round_trip(rv: crate::route::RouteView)
    requires
        forall|j: int|
            0 <= j < strategy_upstreams(rv.strategy).len() ==> (#[trigger] strategy_upstreams(
                rv.strategy,
            )[j]).enabled,
        forall|j: int|
            0 <= j < strategy_upstreams(rv.strategy).len() ==> ((#[trigger] strategy_upstreams(
                rv.strategy,
            )[j]).address matches AddressView::Fqdn(s) ==> parse_ipv4_spec(s) is None),
        rv.strategy matches StrategyView::RoundRobin { next_index, .. } ==> next_index == 0,
    ensures
        spec_into_model(spec_from_model(rv)) == rv,
{
    let ups = strategy_upstreams(rv.strategy);
    let strings = ups.map_values(|u: UpstreamView| address_chars(u.address));
    let back = strings.map_values(|s: Seq<char>| upstream_of_chars(s));
    assert(back =~= ups) by {
        assert forall|j: int| 0 <= j < ups.len() implies back[j] == ups[j] by {
            let u = ups[j];
            match u.address {
                AddressView::Fqdn(s) => {
                    assert(parse_ipv4_spec(s) is None);
                },
                AddressView::Ip { o1, o2, o3, o4, port } => {
                    lemma_parse_ipv4_canonical(o1, o2, o3, o4, port);
                },
            }
        }
    }
    match rv.strategy {
        StrategyView::AlwaysFirst { upstreams } => {
            assert(spec_into_model(spec_from_model(rv)).strategy == rv.strategy);
        },
        StrategyView::RoundRobin { upstreams, next_index } => {
            assert(spec_into_model(spec_from_model(rv)).strategy == rv.strategy);
        },
    }
}

} // verus!
