//! The route-attribute codes of the `Flags` column.
use vstd::prelude::*;

verus! {

/// One route attribute, as `netstat` prints it with a single character.
#[derive(Debug, Clone, Copy, PartialEq, Eq, Hash, Structural)]
pub enum RoutingFlag {
    /// `1`: protocol-specific flag one.
    Proto1,
    /// `2`: protocol-specific flag two.
    Proto2,
    /// `3`: protocol-specific flag three.
    Proto3,
    /// `B`: drop packets silently.
    Blackhole,
    /// `b`: a broadcast address.
    Broadcast,
    /// `C`: new routes are generated on use.
    Cloning,
    /// `c`: protocol-specified generation of new routes on use.
    PrCloning,
    /// `D`: created dynamically by a redirect.
    Dynamic,
    /// `G`: the destination needs a gateway.
    Gateway,
    /// `g`: a route to a destination of the global internet.
    Global,
    /// `H`: a host entry, not a network.
    Host,
    /// `I`: bound to an interface scope.
    IfScope,
    /// `i`: refers to an interface.
    IfRef,
    /// `L`: holds a valid link-layer address for the destination.
    LlInfo,
    /// `M`: modified dynamically by a redirect.
    Modified,
    /// `m`: a multicast address.
    Multicast,
    /// `R`: unreachable, with an error when used.
    Reject,
    /// `r`: a host entry for a router.
    Router,
    /// `S`: added by hand.
    Static,
    /// `U`: usable.
    Up,
    /// `W`: cloned from another route.
    WasCloned,
    /// `X`: an external daemon resolves the address.
    XResolve,
    /// `Y`: a proxying route.
    Proxy,
    /// A code outside the table above, kept as it was read.
    Unknown(char),
}

/// The attribute that the character `c` stands for.
pub open spec fn flag_of(c: char) -> RoutingFlag {
    if c == '1' {
        RoutingFlag::Proto1
    } else if c == '2' {
        RoutingFlag::Proto2
    } else if c == '3' {
        RoutingFlag::Proto3
    } else if c == 'B' {
        RoutingFlag::Blackhole
    } else if c == 'b' {
        RoutingFlag::Broadcast
    } else if c == 'C' {
        RoutingFlag::Cloning
    } else if c == 'c' {
        RoutingFlag::PrCloning
    } else if c == 'D' {
        RoutingFlag::Dynamic
    } else if c == 'G' {
        RoutingFlag::Gateway
    } else if c == 'g' {
        RoutingFlag::Global
    } else if c == 'H' {
        RoutingFlag::Host
    } else if c == 'I' {
        RoutingFlag::IfScope
    } else if c == 'i' {
        RoutingFlag::IfRef
    } else if c == 'L' {
        RoutingFlag::LlInfo
    } else if c == 'M' {
        RoutingFlag::Modified
    } else if c == 'm' {
        RoutingFlag::Multicast
    } else if c == 'R' {
        RoutingFlag::Reject
    } else if c == 'r' {
        RoutingFlag::Router
    } else if c == 'S' {
        RoutingFlag::Static
    } else if c == 'U' {
        RoutingFlag::Up
    } else if c == 'W' {
        RoutingFlag::WasCloned
    } else if c == 'X' {
        RoutingFlag::XResolve
    } else if c == 'Y' {
        RoutingFlag::Proxy
    } else {
        RoutingFlag::Unknown(c)
    }
}

impl RoutingFlag {
    /// The attribute that the character `c` stands for.
    pub fn from_char(c: char) -> (r: RoutingFlag)
        ensures
            r == flag_of(c),
    {
        match c {
            '1' => RoutingFlag::Proto1,
            '2' => RoutingFlag::Proto2,
            '3' => RoutingFlag::Proto3,
            'B' => RoutingFlag::Blackhole,
            'b' => RoutingFlag::Broadcast,
            'C' => RoutingFlag::Cloning,
            'c' => RoutingFlag::PrCloning,
            'D' => RoutingFlag::Dynamic,
            'G' => RoutingFlag::Gateway,
            'g' => RoutingFlag::Global,
            'H' => RoutingFlag::Host,
            'I' => RoutingFlag::IfScope,
            'i' => RoutingFlag::IfRef,
            'L' => RoutingFlag::LlInfo,
            'M' => RoutingFlag::Modified,
            'm' => RoutingFlag::Multicast,
            'R' => RoutingFlag::Reject,
            'r' => RoutingFlag::Router,
            'S' => RoutingFlag::Static,
            'U' => RoutingFlag::Up,
            'W' => RoutingFlag::WasCloned,
            'X' => RoutingFlag::XResolve,
            'Y' => RoutingFlag::Proxy,
            _ => RoutingFlag::Unknown(c),
        }
    }
}

/// The attributes that the characters of `s` stand for, as a set.
pub open spec fn flag_set(s: Seq<char>) -> Set<RoutingFlag> {
    Set::new(|f: RoutingFlag| exists|i: int| 0 <= i < s.len() && flag_of(s[i]) == f)
}

/// Decodes a `Flags` column: each character once, repeats dropped, in the
/// order of first appearance.
pub fn parse_flags(flag_s: &str) -> (r: Vec<RoutingFlag>)
    ensures
        r@.no_duplicates(),
        r@.to_set() == flag_set(flag_s@),
{
    let n = flag_s.unicode_len();
    let mut r: Vec<RoutingFlag> = Vec::new();
    let mut i: usize = 0;
    while i < n
        invariant
            n == flag_s@.len(),
            i <= n,
            r@.no_duplicates(),
            forall|f: RoutingFlag|
                r@.contains(f) <==> exists|k: int| 0 <= k < i && flag_of(flag_s@[k]) == f,
        decreases n - i,
    {
        let f = RoutingFlag::from_char(flag_s.get_char(i));
        let mut seen = false;
        let mut j: usize = 0;
        while j < r.len()
            invariant
                n == flag_s@.len(),
                i < n,
                r@.no_duplicates(),
                forall|g: RoutingFlag|
                    r@.contains(g) <==> exists|k: int| 0 <= k < i && flag_of(flag_s@[k]) == g,
                f == flag_of(flag_s@[i as int]),
                j <= r.len(),
                seen == exists|k: int| 0 <= k < j && r@[k] == f,
            decreases r.len() - j,
        {
            if r[j] == f {
                seen = true;
            }
            j += 1;
        }
        let ghost before = r@;
        if !seen {
            r.push(f);
            proof {
                assert forall|a: int, b: int|
                    0 <= a < r@.len() && 0 <= b < r@.len() && a != b implies r@[a] != r@[b] by {
                    if a < before.len() && b < before.len() {
                        assert(before[a] != before[b]);
                    } else if a == before.len() {
                        assert(r@[b] == before[b]);
                    } else {
                        assert(r@[a] == before[a]);
                    }
                }
            }
        }
        proof {
            assert forall|g: RoutingFlag|
                r@.contains(g) <==> exists|k: int| 0 <= k < i + 1 && flag_of(flag_s@[k]) == g by {
                if r@.contains(g) && g != f {
                    let m = choose|m: int| 0 <= m < r@.len() && r@[m] == g;
                    assert(before[m] == g);
                    assert(before.contains(g));
                }
                if g == f {
                    assert(flag_of(flag_s@[i as int]) == g);
                    if seen {
                        let m = choose|m: int| 0 <= m < before.len() && before[m] == f;
                        assert(r@[m] == f);
                    } else {
                        assert(r@[r@.len() - 1] == f);
                    }
                }
                if exists|k: int| 0 <= k < i && flag_of(flag_s@[k]) == g {
                    assert(before.contains(g));
                    let m = choose|m: int| 0 <= m < before.len() && before[m] == g;
                    assert(r@[m] == g);
                }
            }
        }
        i += 1;
    }
    proof {
        assert(r@.to_set() =~= flag_set(flag_s@));
    }
    r
}

/// Two flag texts made of the same characters, in any order and with any
/// repetition, decode to the same set of attributes.
pub proof fn lemma_flags_order_free(a: Seq<char>, b: Seq<char>)
    requires
        forall|c: char| a.contains(c) <==> b.contains(c),
    ensures
        flag_set(a) == flag_set(b),
{
    assert forall|f: RoutingFlag| flag_set(a).contains(f) implies flag_set(b).contains(f) by {
        let i = choose|i: int| 0 <= i < a.len() && flag_of(a[i]) == f;
        assert(a.contains(a[i]));
        let k = choose|k: int| 0 <= k < b.len() && b[k] == a[i];
        assert(flag_of(b[k]) == f);
    }
    assert forall|f: RoutingFlag| flag_set(b).contains(f) implies flag_set(a).contains(f) by {
        let i = choose|i: int| 0 <= i < b.len() && flag_of(b[i]) == f;
        assert(b.contains(b[i]));
        let k = choose|k: int| 0 <= k < a.len() && a[k] == b[i];
        assert(flag_of(a[k]) == f);
    }
    assert(flag_set(a) =~= flag_set(b));
}

} // verus!
