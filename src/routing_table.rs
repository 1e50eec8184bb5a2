//! The routing table: the routes of one `netstat -rn` snapshot, the
//! default gateways of each interface, and most-specific route lookup.
use vstd::prelude::*;

use crate::entity::{EntityV, IpAddress, Protocol};
use crate::route_entry::{applies, precision, route_of, route_wf, ErrorV, RouteEntry, RouteEntryV};
use crate::text::{fields, split_fields, split_on, split_str, str_eq, views};

verus! {

pub open spec fn entry_views(rs: Seq<RouteEntry>) -> Seq<RouteEntryV> {
    rs.map_values(|r: RouteEntry| r@)
}

/// The address of the gateway of a wildcard route, when the gateway is a
/// concrete address.
pub open spec fn default_gateway_of(r: RouteEntryV) -> Option<IpAddress> {
    match (r.dest.entity, r.gateway.entity) {
        (EntityV::Default, EntityV::Cidr(c)) => c.spec_address(),
        _ => None,
    }
}

/// The default gateways learned from the interface `name`, in the order of
/// their routes; none when no wildcard route with an address gateway names
/// the interface.
pub open spec fn default_gateways(rs: Seq<RouteEntryV>, name: Seq<char>) -> Option<
    Seq<IpAddress>,
>
    decreases rs.len(),
{
    if rs.len() == 0 {
        None
    } else {
        let prev = default_gateways(rs.drop_last(), name);
        let r = rs.last();
        match default_gateway_of(r) {
            Some(a) => if r.net_if == name {
                Some(
                    match prev {
                        Some(p) => p,
                        None => Seq::empty(),
                    }.push(a),
                )
            } else {
                prev
            },
            None => prev,
        }
    }
}

/// The index of the route chosen for `a`: among the routes that apply, the
/// most precise, and of equally precise ones the first.
pub open spec fn best_route(rs: Seq<RouteEntryV>, a: IpAddress) -> Option<int>
    decreases rs.len(),
{
    if rs.len() == 0 {
        None
    } else {
        let b = best_route(rs.drop_last(), a);
        let k = rs.len() - 1;
        if applies(rs[k], a) {
            match b {
                None => Some(k),
                Some(j) => if precision(rs[k]) > precision(rs[j]) {
                    Some(k)
                } else {
                    Some(j)
                },
            }
        } else {
            b
        }
    }
}

/// The routes of one snapshot and, derived from them, each interface's
/// default gateways.
pub struct RoutingTable {
    routes: Vec<RouteEntry>,
    if_names: Vec<String>,
    if_gateways: Vec<Vec<IpAddress>>,
}

impl RoutingTable {
    /// The routes, in the order of the text.
    pub closed spec fn spec_routes(&self) -> Seq<RouteEntryV> {
        entry_views(self.routes@)
    }

    /// The gateway index agrees with the routes.
    pub closed spec fn wf(&self) -> bool {
        &&& self.if_names.len() == self.if_gateways.len()
        &&& forall|i: int, j: int|
            0 <= i < j < self.if_names.len() ==> self.if_names@[i]@ != self.if_names@[j]@
        &&& forall|i: int|
            0 <= i < self.if_names.len() ==> default_gateways(
                self.spec_routes(),
                #[trigger] self.if_names@[i]@,
            ) == Some(self.if_gateways@[i]@)
        &&& forall|name: Seq<char>|
            #[trigger] default_gateways(self.spec_routes(), name) is Some ==> exists|i: int|
                0 <= i < self.if_names.len() && self.if_names@[i]@ == name
    }

    /// Assembles a table from routes in the order of the text.
    pub fn from_routes(routes: Vec<RouteEntry>) -> (t: RoutingTable)
        ensures
            t.wf(),
            t.spec_routes() == entry_views(routes@),
    {
        let ghost rv = entry_views(routes@);
        let mut names: Vec<String> = Vec::new();
        let mut gws: Vec<Vec<IpAddress>> = Vec::new();
        let mut i: usize = 0;
        while i < routes.len()
            invariant
                rv == entry_views(routes@),
                i <= routes.len(),
                names.len() == gws.len(),
                forall|a: int, b: int| 0 <= a < b < names.len() ==> names@[a]@ != names@[b]@,
                forall|k: int|
                    0 <= k < names.len() ==> default_gateways(
                        rv.subrange(0, i as int),
                        #[trigger] names@[k]@,
                    ) == Some(gws@[k]@),
                forall|name: Seq<char>|
                    #[trigger] default_gateways(rv.subrange(0, i as int), name) is Some
                        ==> exists|k: int| 0 <= k < names.len() && names@[k]@ == name,
            decreases routes.len() - i,
        {
            let r = &routes[i];
            let ghost pre = rv.subrange(0, i as int);
            let ghost cur = rv.subrange(0, i as int + 1);
            proof {
                assert(cur.drop_last() =~= pre);
                assert(cur.last() == r@);
            }
            let gw = match (&r.dest.entity, &r.gateway.entity) {
                (crate::entity::Entity::Default, crate::entity::Entity::Cidr(c)) => c.address(),
                _ => None,
            };
            assert(gw == default_gateway_of(r@));
            if let Some(a) = gw {
                let mut k: usize = 0;
                let mut found = false;
                while k < names.len()
                    invariant_except_break
                        !found,
                    invariant
                        k <= names.len(),
                        forall|j: int| 0 <= j < k ==> names@[j]@ != r.net_if@,
                    ensures
                        found ==> k < names.len() && names@[k as int]@ == r.net_if@,
                        !found ==> forall|j: int| 0 <= j < names.len() ==> names@[j]@ != r.net_if@,
                    decreases names.len() - k,
                {
                    if names[k] == r.net_if {
                        found = true;
                        break;
                    }
                    k += 1;
                }
                if found {
                    let ghost old_names = names@;
                    let ghost old_gws = gws@;
                    let mut g = gws.remove(k);
                    g.push(a);
                    gws.insert(k, g);
                    proof {
                        assert forall|j: int| 0 <= j < names.len() implies default_gateways(
                            cur,
                            #[trigger] names@[j]@,
                        ) == Some(gws@[j]@) by {
                            if j != k {
                                assert(gws@[j] == old_gws[j]);
                            }
                        }
                        assert forall|name: Seq<char>|
                            #[trigger] default_gateways(cur, name) is Some implies exists|j: int|
                                0 <= j < names.len() && names@[j]@ == name by {
                            if name != r.net_if@ {
                                assert(default_gateways(pre, name) is Some);
                            } else {
                                assert(names@[k as int]@ == name);
                            }
                        }
                    }
                } else {
                    let ghost old_names = names@;
                    let ghost old_gws = gws@;
                    names.push(r.net_if.clone());
                    let mut g: Vec<IpAddress> = Vec::new();
                    g.push(a);
                    gws.push(g);
                    proof {
                        if default_gateways(pre, r.net_if@) is Some {
                            let j = choose|j: int|
                                0 <= j < old_names.len() && old_names[j]@ == r.net_if@;
                            assert(false);
                        }
                        assert(g@ =~= Seq::<IpAddress>::empty().push(a));
                        assert forall|j: int| 0 <= j < names.len() implies default_gateways(
                            cur,
                            #[trigger] names@[j]@,
                        ) == Some(gws@[j]@) by {
                            if j < old_names.len() {
                                assert(names@[j] == old_names[j]);
                                assert(gws@[j] == old_gws[j]);
                            }
                        }
                        assert forall|name: Seq<char>|
                            #[trigger] default_gateways(cur, name) is Some implies exists|j: int|
                                0 <= j < names.len() && names@[j]@ == name by {
                            if name != r.net_if@ {
                                assert(default_gateways(pre, name) is Some);
                                let j = choose|j: int|
                                    0 <= j < old_names.len() && old_names[j]@ == name;
                                assert(names@[j] == old_names[j]);
                            } else {
                                assert(names@[old_names.len() as int]@ == name);
                            }
                        }
                    }
                }
            } else {
                proof {
                    assert forall|name: Seq<char>|
                        #[trigger] default_gateways(cur, name) == default_gateways(pre, name) by {}
                }
            }
            i += 1;
        }
        proof {
            assert(rv.subrange(0, routes.len() as int) =~= rv);
        }
        RoutingTable { routes, if_names: names, if_gateways: gws }
    }
}

impl RoutingTable {
    /// The routes, in the order of the text.
    pub fn routes(&self) -> (r: &Vec<RouteEntry>)
        ensures
            entry_views(r@) == self.spec_routes(),
    {
        &self.routes
    }

    /// Finds the routing table entry that most precisely matches `addr`
    /// (see [`best_route`]).
    pub fn find_route_entry(&self, addr: IpAddress) -> (r: Option<&RouteEntry>)
        ensures
            match best_route(self.spec_routes(), addr) {
                None => r is None,
                Some(k) => r matches Some(e) && e@ == self.spec_routes()[k],
            },
    {
        let ghost rv = self.spec_routes();
        let mut best: Option<&RouteEntry> = None;
        let ghost mut bk: Option<int> = None;
        let mut i: usize = 0;
        while i < self.routes.len()
            invariant
                rv == entry_views(self.routes@),
                i <= self.routes.len(),
                best_route(rv.subrange(0, i as int), addr) == bk,
                match bk {
                    Some(k) => 0 <= k < i && (best matches Some(e) && *e == self.routes@[k]),
                    None => best is None,
                },
            decreases self.routes.len() - i,
        {
            let r = &self.routes[i];
            proof {
                let cur = rv.subrange(0, i as int + 1);
                assert(cur.drop_last() =~= rv.subrange(0, i as int));
                assert(cur[i as int] == r@);
                if let Some(k) = bk {
                    assert(cur[k] == rv[k]);
                }
            }
            if r.contains(addr) {
                match best {
                    None => {
                        best = Some(r);
                        proof {
                            bk = Some(i as int);
                        }
                    },
                    Some(old) => {
                        proof {
                            if precision(r@) > precision(old@) {
                                bk = Some(i as int);
                            }
                        }
                        best = Some(old.most_precise(r));
                    },
                }
            }
            i += 1;
        }
        proof {
            assert(rv.subrange(0, self.routes.len() as int) =~= rv);
        }
        best
    }

    /// The default gateways learned from the interface `net_if`; none when
    /// no wildcard route with an address gateway names it.
    pub fn default_gateways_for_netif(&self, net_if: &str) -> (r: Option<&Vec<IpAddress>>)
        requires
            self.wf(),
        ensures
            match default_gateways(self.spec_routes(), net_if@) {
                None => r is None,
                Some(g) => r matches Some(v) && v@ == g,
            },
    {
        let name = net_if.to_owned();
        let mut k: usize = 0;
        while k < self.if_names.len()
            invariant
                self.wf(),
                name@ == net_if@,
                k <= self.if_names.len(),
                forall|j: int| 0 <= j < k ==> self.if_names@[j]@ != net_if@,
            decreases self.if_names.len() - k,
        {
            if self.if_names[k] == name {
                proof {
                    assert(default_gateways(self.spec_routes(), self.if_names@[k as int]@) == Some(
                        self.if_gateways@[k as int]@,
                    ));
                }
                return Some(&self.if_gateways[k]);
            }
            k += 1;
        }
        proof {
            if default_gateways(self.spec_routes(), net_if@) is Some {
                let j = choose|j: int|
                    0 <= j < self.if_names.len() && self.if_names@[j]@ == net_if@;
                assert(false);
            }
        }
        None
    }
}

/// The route that lookup chooses applies to the address; no applicable
/// route is more precise; every earlier applicable route is strictly less
/// precise; and there is no choice exactly when no route applies.
pub proof fn lemma_best_route_is_most_precise(rs: Seq<RouteEntryV>, a: IpAddress)
    ensures
        best_route(rs, a) is None <==> forall|j: int| 0 <= j < rs.len() ==> !applies(rs[j], a),
        best_route(rs, a) matches Some(k) ==> {
            &&& 0 <= k < rs.len()
            &&& applies(rs[k], a)
            &&& forall|j: int|
                0 <= j < rs.len() && applies(rs[j], a) ==> precision(rs[j]) <= precision(rs[k])
            &&& forall|j: int|
                0 <= j < k && applies(rs[j], a) ==> precision(rs[j]) < precision(rs[k])
        },
    decreases rs.len(),
{
    if rs.len() > 0 {
        let p = rs.drop_last();
        lemma_best_route_is_most_precise(p, a);
        assert forall|j: int| 0 <= j < p.len() implies p[j] == rs[j] by {}
        if best_route(rs, a) is None {
            assert forall|j: int| 0 <= j < rs.len() implies !applies(rs[j], a) by {
                if j < p.len() {
                    assert(p[j] == rs[j]);
                }
            }
        }
    }
}

/// Of two applicable routes, lookup never chooses the one with the shorter
/// network length.
pub proof fn lemma_longer_prefix_wins(rs: Seq<RouteEntryV>, a: IpAddress, i: int, j: int)
    requires
        0 <= i < rs.len(),
        0 <= j < rs.len(),
        applies(rs[i], a),
        applies(rs[j], a),
        precision(rs[i]) > precision(rs[j]),
    ensures
        best_route(rs, a) is Some,
        best_route(rs, a) != Some(j),
        precision(rs[best_route(rs, a)->0]) >= precision(rs[i]),
{
    lemma_best_route_is_most_precise(rs, a);
}

/// A wildcard route of the other family never answers a query: when the
/// only applicable candidates are wildcard routes, lookup picks one whose
/// section family is the query's.
pub proof fn lemma_default_route_family(rs: Seq<RouteEntryV>, a: IpAddress)
    ensures
        best_route(rs, a) matches Some(k) ==> (rs[k].dest.entity is Default ==> match a {
            IpAddress::V4(_) => rs[k].proto == crate::entity::Protocol::V4,
            IpAddress::V6(_) => rs[k].proto == crate::entity::Protocol::V6,
        }),
{
    lemma_best_route_is_most_precise(rs, a);
}

/// The gateways of the wildcard routes of `name` that have an address
/// gateway, in the order of the routes, repeats kept.
pub open spec fn gateway_list(rs: Seq<RouteEntryV>, name: Seq<char>) -> Seq<IpAddress> {
    rs.filter_map(
        |r: RouteEntryV|
            if r.net_if == name {
                default_gateway_of(r)
            } else {
                None
            },
    )
}

/// The gateway query answers "no data" exactly when the interface has no
/// wildcard route with an address gateway, and otherwise every such
/// gateway in the order of the text.
pub proof fn lemma_default_gateways_are_listed(rs: Seq<RouteEntryV>, name: Seq<char>)
    ensures
        default_gateways(rs, name) == if gateway_list(rs, name).len() == 0 {
            None::<Seq<IpAddress>>
        } else {
            Some(gateway_list(rs, name))
        },
    decreases rs.len(),
{
    if rs.len() > 0 {
        let p = rs.drop_last();
        lemma_default_gateways_are_listed(p, name);
        let g = gateway_list(p, name);
        match default_gateway_of(rs.last()) {
            Some(a) => if rs.last().net_if == name {
                assert(gateway_list(rs, name) == g + seq![a]);
                assert(g.push(a) =~= g + seq![a]);
                if g.len() == 0 {
                    assert(g =~= Seq::<IpAddress>::empty());
                    assert(Seq::<IpAddress>::empty().push(a) =~= g + seq![a]);
                }
            } else {
                assert(gateway_list(rs, name) == g);
            },
            None => {
                assert(gateway_list(rs, name) == g);
            },
        }
    }
}

/// An interface has an entry in the gateway index exactly when some
/// wildcard route with an address gateway names it; a wildcard route whose
/// gateway is not an address adds nothing.
pub proof fn lemma_gateway_index_keys(rs: Seq<RouteEntryV>, name: Seq<char>)
    ensures
        default_gateways(rs, name) is Some <==> exists|j: int|
            0 <= j < rs.len() && rs[j].net_if == name && (#[trigger] default_gateway_of(rs[j]))
                is Some,
    decreases rs.len(),
{
    if rs.len() > 0 {
        let p = rs.drop_last();
        lemma_gateway_index_keys(p, name);
        if default_gateways(p, name) is Some {
            let j = choose|j: int|
                0 <= j < p.len() && p[j].net_if == name && (#[trigger] default_gateway_of(p[j]))
                    is Some;
            assert(rs[j] == p[j]);
        }
        if exists|j: int|
            0 <= j < rs.len() && rs[j].net_if == name && (#[trigger] default_gateway_of(rs[j]))
                is Some {
            let j = choose|j: int|
                0 <= j < rs.len() && rs[j].net_if == name && (#[trigger] default_gateway_of(rs[j]))
                    is Some;
            if j < p.len() {
                assert(p[j] == rs[j]);
            }
        }
    }
}

/// Reading the same text twice gives tables that answer every lookup and
/// every gateway query alike.
pub proof fn lemma_reparse_answers_alike(
    text: Seq<char>,
    t1: RoutingTable,
    t2: RoutingTable,
    a: IpAddress,
    name: Seq<char>,
)
    requires
        table_of(text) is Ok,
        t1.spec_routes() == table_of(text)->Ok_0,
        t2.spec_routes() == table_of(text)->Ok_0,
    ensures
        best_route(t1.spec_routes(), a) == best_route(t2.spec_routes(), a),
        best_route(t1.spec_routes(), a) matches Some(k) ==> t1.spec_routes()[k]
            == t2.spec_routes()[k],
        default_gateways(t1.spec_routes(), name) == default_gateways(t2.spec_routes(), name),
{
}

/// Why a routing-table text could not be read.
#[derive(Debug, Clone, PartialEq, Eq)]
pub enum Error {
    /// A section title (named here) is followed by no header line.
    NetstatParseNoHeaders(String),
    /// A data line could not be read.
    RouteEntryParse(crate::route_entry::Error),
    /// A data line comes before any section title.
    EntryBeforeProto,
}

pub enum TableErrorV {
    NetstatParseNoHeaders(Seq<char>),
    RouteEntryParse(ErrorV),
    EntryBeforeProto,
}

impl View for Error {
    type V = TableErrorV;

    open spec fn view(&self) -> TableErrorV {
        match self {
            Error::NetstatParseNoHeaders(t) => TableErrorV::NetstatParseNoHeaders(t@),
            Error::RouteEntryParse(e) => TableErrorV::RouteEntryParse(e@),
            Error::EntryBeforeProto => TableErrorV::EntryBeforeProto,
        }
    }
}

/// The family that a section-title line introduces, if it is one.
pub open spec fn section_of(fs: Seq<Seq<char>>) -> Option<Protocol> {
    if fs.len() == 1 && (fs[0] == "Internet:"@ || fs[0] == "Internet"@) {
        Some(Protocol::V4)
    } else if fs.len() == 1 && (fs[0] == "Internet6:"@ || fs[0] == "Internet6"@) {
        Some(Protocol::V6)
    } else {
        None
    }
}

/// The title line of the whole dump.
pub open spec fn is_banner(fs: Seq<Seq<char>>) -> bool {
    fs.len() == 2 && fs[0] == "Routing"@ && fs[1] == "tables"@
}

/// Where the reading of a table text stands after some lines.
pub struct ParseState {
    /// The family of the current section.
    pub proto: Option<Protocol>,
    /// The column names of the current section.
    pub headers: Seq<Seq<char>>,
    /// The title of a section whose header line is still to come.
    pub pending: Option<Seq<char>>,
    pub routes: Seq<RouteEntryV>,
}

pub open spec fn initial_state() -> ParseState {
    ParseState { proto: None, headers: Seq::empty(), pending: None, routes: Seq::empty() }
}

/// Takes one line: blank lines are skipped; a section title sets the family
/// and asks for a header line; the line after a title names the columns;
/// the dump's title before any section is skipped; any other line is a
/// route of the current section.
pub open spec fn line_step(st: ParseState, line: Seq<char>) -> Result<ParseState, TableErrorV> {
    let fs = fields(line);
    if fs.len() == 0 {
        Ok(st)
    } else if section_of(fs) is Some {
        match st.pending {
            Some(t) => Err(TableErrorV::NetstatParseNoHeaders(t)),
            None => Ok(
                ParseState {
                    proto: section_of(fs),
                    headers: Seq::empty(),
                    pending: Some(fs[0]),
                    ..st
                },
            ),
        }
    } else if st.pending is Some {
        Ok(ParseState { headers: fs, pending: None, ..st })
    } else if is_banner(fs) && st.proto is None {
        Ok(st)
    } else {
        match st.proto {
            None => Err(TableErrorV::EntryBeforeProto),
            Some(p) => match route_of(p, line, st.headers) {
                Ok(r) => Ok(ParseState { routes: st.routes.push(r), ..st }),
                Err(e) => Err(TableErrorV::RouteEntryParse(e)),
            },
        }
    }
}

/// Takes the first `m` lines, stopping at the first error.
pub open spec fn scan_lines(ls: Seq<Seq<char>>, m: nat) -> Result<ParseState, TableErrorV>
    decreases m,
{
    if m == 0 {
        Ok(initial_state())
    } else {
        match scan_lines(ls, (m - 1) as nat) {
            Err(e) => Err(e),
            Ok(st) => line_step(st, ls[m - 1]),
        }
    }
}

/// The routes of a `netstat -rn` text, in order, or the first error.
pub open spec fn table_of(text: Seq<char>) -> Result<Seq<RouteEntryV>, TableErrorV> {
    let ls = split_on(text, '\n');
    match scan_lines(ls, ls.len()) {
        Err(e) => Err(e),
        Ok(st) => match st.pending {
            Some(t) => Err(TableErrorV::NetstatParseNoHeaders(t)),
            None => Ok(st.routes),
        },
    }
}

pub proof fn lemma_scan_lines_err(ls: Seq<Seq<char>>, k: nat, m: nat)
    requires
        k <= m,
        scan_lines(ls, k) is Err,
    ensures
        scan_lines(ls, m) == scan_lines(ls, k),
    decreases m,
{
    if m > k {
        lemma_scan_lines_err(ls, k, (m - 1) as nat);
    }
}

pub open spec fn opt_str_view(p: Option<&str>) -> Option<Seq<char>> {
    match p {
        Some(t) => Some(t@),
        None => None,
    }
}

fn section_title(fs: &Vec<&str>) -> (r: Option<Protocol>)
    ensures
        r == section_of(views(fs@)),
{
    if fs.len() != 1 {
        return None;
    }
    let t = fs[0];
    if str_eq(t, "Internet:") || str_eq(t, "Internet") {
        Some(Protocol::V4)
    } else if str_eq(t, "Internet6:") || str_eq(t, "Internet6") {
        Some(Protocol::V6)
    } else {
        None
    }
}

impl RoutingTable {
    /// Reads the text that `netstat -rn` prints into a table (see
    /// [`table_of`]); nothing is built when any line is in error.
    pub fn from_netstat_output(text: &str) -> (r: Result<RoutingTable, Error>)
        ensures
            match table_of(text@) {
                Ok(rs) => r matches Ok(t) && t.wf() && t.spec_routes() == rs && forall|k: int|
                    0 <= k < rs.len() ==> route_wf(#[trigger] rs[k]),
                Err(e) => r matches Err(x) && x@ == e,
            },
    {
        let lines = split_str(text, '\n');
        let ghost ls = views(lines@);
        let mut proto: Option<Protocol> = None;
        let mut headers: Vec<&str> = Vec::new();
        let mut pending: Option<&str> = None;
        let mut routes: Vec<RouteEntry> = Vec::new();
        proof {
            assert(views(headers@) =~= Seq::<Seq<char>>::empty());
            assert(entry_views(routes@) =~= Seq::<RouteEntryV>::empty());
        }
        let mut i: usize = 0;
        while i < lines.len()
            invariant
                ls == views(lines@),
                ls == split_on(text@, '\n'),
                i <= lines.len(),
                forall|k: int|
                    0 <= k < routes.len() ==> route_wf(#[trigger] entry_views(routes@)[k]),
                scan_lines(ls, i as nat) == Ok::<ParseState, TableErrorV>(
                    ParseState {
                        proto,
                        headers: views(headers@),
                        pending: opt_str_view(pending),
                        routes: entry_views(routes@),
                    },
                ),
            decreases lines.len() - i,
        {
            let line = lines[i];
            assert(ls[i as int] == line@);
            let fs = split_fields(line);
            let sect = section_title(&fs);
            if fs.len() == 0 {
            } else if let Some(p) = sect {
                if let Some(t) = pending {
                    proof {
                        lemma_scan_lines_err(ls, (i + 1) as nat, ls.len());
                    }
                    return Err(Error::NetstatParseNoHeaders(t.to_owned()));
                }
                proto = Some(p);
                headers = Vec::new();
                pending = Some(fs[0]);
                proof {
                    assert(views(headers@) =~= Seq::<Seq<char>>::empty());
                }
            } else if pending.is_some() {
                headers = fs;
                pending = None;
            } else if fs.len() == 2 && str_eq(fs[0], "Routing") && str_eq(fs[1], "tables")
                && proto.is_none() {
            } else {
                match proto {
                    None => {
                        proof {
                            lemma_scan_lines_err(ls, (i + 1) as nat, ls.len());
                        }
                        return Err(Error::EntryBeforeProto);
                    },
                    Some(p) => match RouteEntry::parse(p, line, headers.as_slice()) {
                        Ok(r) => {
                            let ghost old_routes = routes@;
                            routes.push(r);
                            proof {
                                assert(entry_views(routes@) =~= entry_views(old_routes).push(
                                    r@,
                                ));
                            }
                        },
                        Err(e) => {
                            proof {
                                lemma_scan_lines_err(ls, (i + 1) as nat, ls.len());
                            }
                            return Err(Error::RouteEntryParse(e));
                        },
                    },
                }
            }
            i += 1;
        }
        if let Some(t) = pending {
            return Err(Error::NetstatParseNoHeaders(t.to_owned()));
        }
        Ok(RoutingTable::from_routes(routes))
    }
}

} // verus!
