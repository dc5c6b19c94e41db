//! Turns the raw channels of one worker, each scoped to its immediate parent
//! subgraph and addressed by scope-local endpoints, into edges between fully
//! qualified operator addresses, and sifts operators into leaves and
//! subgraphs.
use vstd::prelude::*;
use crate::addr::same_addr;
use crate::events::ChannelsEvent;
use crate::extract::OperatorRecord;
use crate::stats::{has_child, is_subgraph_of};

verus! {

/// How a rewired channel relates to the scopes it passes through.
#[derive(Clone, Copy, Debug, PartialEq, Eq, Structural)]
pub enum ChannelKind {
    /// Both ends are operators of one scope, neither of them a subgraph.
    Normal,
    /// The channel enters a scope; its target is the deepest operator it
    /// reaches.
    ScopeIngress,
    /// The channel leaves a scope; its source is the deepest operator it
    /// comes from.
    ScopeEgress,
}

/// A channel between fully qualified operator addresses.
#[derive(Clone, Debug)]
pub enum Channel {
    Normal { channel_id: usize, source_addr: Vec<usize>, target_addr: Vec<usize> },
    ScopeIngress { channel_id: usize, source_addr: Vec<usize>, target_addr: Vec<usize> },
    ScopeEgress { channel_id: usize, source_addr: Vec<usize>, target_addr: Vec<usize> },
}

impl Channel {
    pub open spec fn spec_kind(&self) -> ChannelKind {
        match self {
            Channel::Normal { .. } => ChannelKind::Normal,
            Channel::ScopeIngress { .. } => ChannelKind::ScopeIngress,
            Channel::ScopeEgress { .. } => ChannelKind::ScopeEgress,
        }
    }

    pub open spec fn spec_channel_id(&self) -> usize {
        match self {
            Channel::Normal { channel_id, .. } => *channel_id,
            Channel::ScopeIngress { channel_id, .. } => *channel_id,
            Channel::ScopeEgress { channel_id, .. } => *channel_id,
        }
    }

    pub open spec fn spec_source(&self) -> Seq<usize> {
        match self {
            Channel::Normal { source_addr, .. } => source_addr@,
            Channel::ScopeIngress { source_addr, .. } => source_addr@,
            Channel::ScopeEgress { source_addr, .. } => source_addr@,
        }
    }

    pub open spec fn spec_target(&self) -> Seq<usize> {
        match self {
            Channel::Normal { target_addr, .. } => target_addr@,
            Channel::ScopeIngress { target_addr, .. } => target_addr@,
            Channel::ScopeEgress { target_addr, .. } => target_addr@,
        }
    }

    /// Which of the three kinds the channel is.
    pub fn kind(&self) -> (r: ChannelKind)
        ensures
            r == self.spec_kind(),
    {
        match self {
            Channel::Normal { .. } => ChannelKind::Normal,
            Channel::ScopeIngress { .. } => ChannelKind::ScopeIngress,
            Channel::ScopeEgress { .. } => ChannelKind::ScopeEgress,
        }
    }

    /// The id of the raw channel that the edge is named after.
    pub fn channel_id(&self) -> (r: usize)
        ensures
            r == self.spec_channel_id(),
    {
        match self {
            Channel::Normal { channel_id, .. } => *channel_id,
            Channel::ScopeIngress { channel_id, .. } => *channel_id,
            Channel::ScopeEgress { channel_id, .. } => *channel_id,
        }
    }

    /// The address of the operator the edge leaves.
    pub fn source_addr(&self) -> (r: &Vec<usize>)
        ensures
            r@ == self.spec_source(),
    {
        match self {
            Channel::Normal { source_addr, .. } => source_addr,
            Channel::ScopeIngress { source_addr, .. } => source_addr,
            Channel::ScopeEgress { source_addr, .. } => source_addr,
        }
    }

    /// The address of the operator the edge enters.
    pub fn target_addr(&self) -> (r: &Vec<usize>)
        ensures
            r@ == self.spec_target(),
    {
        match self {
            Channel::Normal { target_addr, .. } => target_addr,
            Channel::ScopeIngress { target_addr, .. } => target_addr,
            Channel::ScopeEgress { target_addr, .. } => target_addr,
        }
    }
}

/// The fully qualified address of a channel's source operator.
pub open spec fn source_of(c: ChannelsEvent) -> Seq<usize> {
    c.scope_addr@.push(c.source.operator)
}

/// The fully qualified address of a channel's target operator.
pub open spec fn target_of(c: ChannelsEvent) -> Seq<usize> {
    c.scope_addr@.push(c.target.operator)
}

/// Whether `a` is one of the addresses.
pub open spec fn listed(subgraphs: Seq<Vec<usize>>, a: Seq<usize>) -> bool {
    exists|i: int| 0 <= i < subgraphs.len() && (#[trigger] subgraphs[i])@ == a
}

/// A channel inside one scope whose ends are neither the scope boundary nor
/// a subgraph.
pub open spec fn is_normal(c: ChannelsEvent, subgraphs: Seq<Vec<usize>>) -> bool {
    c.source.port != 0 && c.target.port != 0 && !listed(subgraphs, source_of(c))
        && !listed(subgraphs, target_of(c))
}

/// The kind that a raw channel is rewired to: a channel that is not normal
/// enters a scope when it comes from the scope boundary or goes into a
/// subgraph, and leaves one otherwise.
pub open spec fn kind_of(c: ChannelsEvent, subgraphs: Seq<Vec<usize>>) -> ChannelKind {
    if is_normal(c, subgraphs) {
        ChannelKind::Normal
    } else if c.source.port == 0 || listed(subgraphs, target_of(c)) {
        ChannelKind::ScopeIngress
    } else {
        ChannelKind::ScopeEgress
    }
}

/// Channel `c` continues, inside the subgraph at `addr`, what enters that
/// subgraph at `port`.
pub open spec fn continues_inward(c: ChannelsEvent, addr: Seq<usize>, port: usize) -> bool {
    c.scope_addr@ == addr && c.source.operator == 0 && c.source.port == port
}

/// Channel `c` feeds, from inside the subgraph at `addr`, what leaves that
/// subgraph at `port`.
pub open spec fn continues_outward(c: ChannelsEvent, addr: Seq<usize>, port: usize) -> bool {
    c.scope_addr@ == addr && c.target.operator == 0 && c.target.port == port
}

/// The deepest operator reached from `(addr, port)`, where `addr` is a
/// subgraph that a channel enters at `port`: every channel that continues
/// inside it is followed, at most `fuel` boundaries deep, and the end point
/// with the longest address wins; among equally deep ones, the one reached
/// through the earliest channel. Where nothing continues, `addr` itself.
pub open spec fn deepest_in(chs: Seq<ChannelsEvent>, addr: Seq<usize>, port: usize, fuel: nat) -> Seq<
    usize,
>
    decreases fuel, 0int,
{
    if fuel == 0 {
        addr
    } else {
        match best_in(chs, addr, port, (fuel - 1) as nat, 0) {
            Some(end) => end,
            None => addr,
        }
    }
}

/// The deepest end point among the channels at or after index `from` that
/// continue inward from `(addr, port)`, or `None` where none does.
pub open spec fn best_in(
    chs: Seq<ChannelsEvent>,
    addr: Seq<usize>,
    port: usize,
    fuel: nat,
    from: int,
) -> Option<Seq<usize>>
    decreases fuel, chs.len() - from,
{
    if from < 0 || from >= chs.len() {
        None
    } else {
        let rest = best_in(chs, addr, port, fuel, from + 1);
        if continues_inward(chs[from], addr, port) {
            let here = deepest_in(chs, target_of(chs[from]), chs[from].target.port, fuel);
            match rest {
                Some(later) => if later.len() > here.len() {
                    Some(later)
                } else {
                    Some(here)
                },
                None => Some(here),
            }
        } else {
            rest
        }
    }
}

/// The deepest operator that feeds `(addr, port)`, where `addr` is a
/// subgraph that a channel leaves at `port`, and the id of the innermost
/// channel on the way there (`id` where none continues): every channel that
/// feeds the exit from inside is followed back, at most `fuel` boundaries
/// deep, and the source with the longest address wins; among equally deep
/// ones, the one reached through the earliest channel.
pub open spec fn deepest_out(
    chs: Seq<ChannelsEvent>,
    addr: Seq<usize>,
    port: usize,
    id: usize,
    fuel: nat,
) -> (Seq<usize>, usize)
    decreases fuel, 0int,
{
    if fuel == 0 {
        (addr, id)
    } else {
        match best_out(chs, addr, port, (fuel - 1) as nat, 0) {
            Some(end) => end,
            None => (addr, id),
        }
    }
}

/// The deepest source among the channels at or after index `from` that feed
/// `(addr, port)` from inside, or `None` where none does.
pub open spec fn best_out(
    chs: Seq<ChannelsEvent>,
    addr: Seq<usize>,
    port: usize,
    fuel: nat,
    from: int,
) -> Option<(Seq<usize>, usize)>
    decreases fuel, chs.len() - from,
{
    if from < 0 || from >= chs.len() {
        None
    } else {
        let rest = best_out(chs, addr, port, fuel, from + 1);
        if continues_outward(chs[from], addr, port) {
            let here = deepest_out(
                chs,
                source_of(chs[from]),
                chs[from].source.port,
                chs[from].id,
                fuel,
            );
            match rest {
                Some(later) => if later.0.len() > here.0.len() {
                    Some(later)
                } else {
                    Some(here)
                },
                None => Some(here),
            }
        } else {
            rest
        }
    }
}

/// The edge that raw channel `c`, among the worker's channels `chs`, is
/// rewired to: its kind, its id, and its source and target addresses. Each
/// boundary crossed takes one channel of the worker, so tracing goes at most
/// that many boundaries deep.
pub open spec fn rewired(c: ChannelsEvent, chs: Seq<ChannelsEvent>, subgraphs: Seq<Vec<usize>>) -> (
    ChannelKind,
    usize,
    Seq<usize>,
    Seq<usize>,
) {
    let kind = kind_of(c, subgraphs);
    if kind == ChannelKind::Normal {
        (kind, c.id, source_of(c), target_of(c))
    } else if kind == ChannelKind::ScopeIngress {
        (kind, c.id, source_of(c), deepest_in(chs, target_of(c), c.target.port, chs.len()))
    } else {
        let out = deepest_out(chs, source_of(c), c.source.port, c.id, chs.len());
        (kind, out.1, out.0, target_of(c))
    }
}

/// A copy of an address.
fn copy_addr(a: &Vec<usize>) -> (r: Vec<usize>)
    ensures
        r@ == a@,
{
    let r = a.clone();
    assert(r@ =~= a@);
    r
}

/// The address of an endpoint inside the scope at `scope`.
fn qualify(scope: &Vec<usize>, operator: usize) -> (r: Vec<usize>)
    ensures
        r@ == scope@.push(operator),
{
    let mut r = copy_addr(scope);
    r.push(operator);
    r
}

/// Whether `a` is one of the addresses.
pub fn contains_addr(subgraphs: &Vec<Vec<usize>>, a: &Vec<usize>) -> (r: bool)
    ensures
        r == listed(subgraphs@, a@),
{
    let mut i: usize = 0;
    while i < subgraphs.len()
        invariant
            i <= subgraphs.len(),
            forall|j: int| 0 <= j < i ==> (#[trigger] subgraphs@[j])@ != a@,
        decreases subgraphs.len() - i,
    {
        if same_addr(&subgraphs[i], a) {
            return true;
        }
        i += 1;
    }
    false
}

/// Follows a channel that enters the subgraph at `entry` through `port` to
/// the deepest operator it reaches.
pub fn subgraph_ingress(chs: &Vec<ChannelsEvent>, entry: Vec<usize>, port: usize, fuel: usize) -> (r:
    Vec<usize>)
    ensures
        r@ == deepest_in(chs@, entry@, port, fuel as nat),
    decreases fuel,
{
    if fuel == 0 {
        return entry;
    }
    let mut best: Option<Vec<usize>> = None;
    let mut j: usize = chs.len();
    while j > 0
        invariant
            j <= chs@.len(),
            fuel > 0,
            match best {
                Some(b) => best_in(chs@, entry@, port, (fuel - 1) as nat, j as int) == Some(b@),
                None => best_in(chs@, entry@, port, (fuel - 1) as nat, j as int).is_none(),
            },
        decreases j,
    {
        let c = &chs[j - 1];
        if same_addr(&c.scope_addr, &entry) && c.source.operator == 0 && c.source.port == port {
            let here = subgraph_ingress(
                chs,
                qualify(&c.scope_addr, c.target.operator),
                c.target.port,
                fuel - 1,
            );
            best = match best {
                Some(later) => if later.len() > here.len() {
                    Some(later)
                } else {
                    Some(here)
                },
                None => Some(here),
            };
        }
        j -= 1;
    }
    match best {
        Some(end) => end,
        None => entry,
    }
}

/// Follows a channel that leaves the subgraph at `exit` through `port` back
/// to the deepest operator it comes from, and returns that operator's
/// address with the id of the innermost channel on the way (`id` where no
/// channel feeds the exit from inside).
pub fn subgraph_egress(
    chs: &Vec<ChannelsEvent>,
    exit: Vec<usize>,
    port: usize,
    id: usize,
    fuel: usize,
) -> (r: (Vec<usize>, usize))
    ensures
        (r.0@, r.1) == deepest_out(chs@, exit@, port, id, fuel as nat),
    decreases fuel,
{
    if fuel == 0 {
        return (exit, id);
    }
    let mut best: Option<(Vec<usize>, usize)> = None;
    let mut j: usize = chs.len();
    while j > 0
        invariant
            j <= chs@.len(),
            fuel > 0,
            match best {
                Some(b) => best_out(chs@, exit@, port, (fuel - 1) as nat, j as int) == Some(
                    (b.0@, b.1),
                ),
                None => best_out(chs@, exit@, port, (fuel - 1) as nat, j as int).is_none(),
            },
        decreases j,
    {
        let c = &chs[j - 1];
        if same_addr(&c.scope_addr, &exit) && c.target.operator == 0 && c.target.port == port {
            let here = subgraph_egress(
                chs,
                qualify(&c.scope_addr, c.source.operator),
                c.source.port,
                c.id,
                fuel - 1,
            );
            best = match best {
                Some(later) => if later.0.len() > here.0.len() {
                    Some(later)
                } else {
                    Some(here)
                },
                None => Some(here),
            };
        }
        j -= 1;
    }
    match best {
        Some(end) => end,
        None => (exit, id),
    }
}

/// The edge that one raw channel is rewired to.
pub fn rewire_channel(c: &ChannelsEvent, chs: &Vec<ChannelsEvent>, subgraphs: &Vec<Vec<usize>>) -> (r:
    Channel)
    ensures
        (r.spec_kind(), r.spec_channel_id(), r.spec_source(), r.spec_target()) == rewired(
            *c,
            chs@,
            subgraphs@,
        ),
{
    let source = qualify(&c.scope_addr, c.source.operator);
    let target = qualify(&c.scope_addr, c.target.operator);
    let source_is_subgraph = contains_addr(subgraphs, &source);
    let target_is_subgraph = contains_addr(subgraphs, &target);
    if c.source.port != 0 && c.target.port != 0 && !source_is_subgraph && !target_is_subgraph {
        Channel::Normal { channel_id: c.id, source_addr: source, target_addr: target }
    } else if c.source.port == 0 || target_is_subgraph {
        let deepest = subgraph_ingress(chs, target, c.target.port, chs.len());
        Channel::ScopeIngress { channel_id: c.id, source_addr: source, target_addr: deepest }
    } else {
        let (deepest, id) = subgraph_egress(chs, source, c.source.port, c.id, chs.len());
        Channel::ScopeEgress { channel_id: id, source_addr: deepest, target_addr: target }
    }
}

/// Rewires each of a worker's raw channels, in order, given the addresses of
/// the worker's subgraphs.
pub fn rewire_channels(channels: &Vec<ChannelsEvent>, subgraphs: &Vec<Vec<usize>>) -> (r: Vec<
    Channel,
>)
    ensures
        r@.len() == channels@.len(),
        forall|i: int|
            0 <= i < r@.len() ==> ((#[trigger] r@[i]).spec_kind(), r@[i].spec_channel_id(), r@[
                i
            ].spec_source(), r@[i].spec_target()) == rewired(channels@[i], channels@, subgraphs@),
{
    let mut out: Vec<Channel> = Vec::new();
    let mut i: usize = 0;
    while i < channels.len()
        invariant
            i <= channels.len(),
            out@.len() == i,
            forall|k: int|
                0 <= k < i ==> ((#[trigger] out@[k]).spec_kind(), out@[k].spec_channel_id(), out@[
                    k
                ].spec_source(), out@[k].spec_target()) == rewired(
                    channels@[k],
                    channels@,
                    subgraphs@,
                ),
        decreases channels.len() - i,
    {
        let edge = rewire_channel(&channels[i], channels, subgraphs);
        out.push(edge);
        i += 1;
    }
    out
}

/// Channel classification: every raw channel is rewired to exactly one of
/// the three kinds. A normal edge joins two operators of one scope, neither
/// of them a subgraph nor the boundary; an edge that leaves a scope never
/// ends at a subgraph.
pub proof fn lemma_channel_classification(
    c: ChannelsEvent,
    chs: Seq<ChannelsEvent>,
    subgraphs: Seq<Vec<usize>>,
)
    ensures
        (rewired(c, chs, subgraphs).0 == ChannelKind::Normal) as int + (rewired(c, chs, subgraphs).0
            == ChannelKind::ScopeIngress) as int + (rewired(c, chs, subgraphs).0
            == ChannelKind::ScopeEgress) as int == 1,
        rewired(c, chs, subgraphs).0 == ChannelKind::Normal <==> is_normal(c, subgraphs),
        rewired(c, chs, subgraphs).0 == ChannelKind::Normal ==> c.source.port != 0 && c.target.port
            != 0 && !listed(subgraphs, rewired(c, chs, subgraphs).2) && !listed(
            subgraphs,
            rewired(c, chs, subgraphs).3,
        ),
        rewired(c, chs, subgraphs).0 == ChannelKind::ScopeEgress ==> !listed(
            subgraphs,
            rewired(c, chs, subgraphs).3,
        ),
        rewired(c, chs, subgraphs).0 == ChannelKind::ScopeIngress ==> rewired(c, chs, subgraphs).1
            == c.id && rewired(c, chs, subgraphs).2 == source_of(c),
{
}

/// The addresses of `worker`'s operators in `ops` that are subgraphs among
/// `all` (`subgraphs`) or leaves (`!subgraphs`), in order.
pub open spec fn sifted(
    ops: Seq<OperatorRecord>,
    all: Seq<OperatorRecord>,
    worker: usize,
    subgraphs: bool,
) -> Seq<Seq<usize>>
    decreases ops.len(),
{
    if ops.len() == 0 {
        seq![]
    } else {
        let rest = sifted(ops.drop_last(), all, worker, subgraphs);
        let op = ops.last();
        if op.worker == worker && has_child(all, worker, op.operator.addr@) == subgraphs {
            rest.push(op.operator.addr@)
        } else {
            rest
        }
    }
}

/// Sorts the addresses of `worker`'s operators into leaves and subgraphs:
/// an operator is a subgraph when another operator of the worker lies
/// underneath it.
pub fn sift_leaves_and_scopes(operators: &Vec<OperatorRecord>, worker: usize) -> (r: (
    Vec<Vec<usize>>,
    Vec<Vec<usize>>,
))
    ensures
        r.0@.map_values(|v: Vec<usize>| v@) == sifted(operators@, operators@, worker, false),
        r.1@.map_values(|v: Vec<usize>| v@) == sifted(operators@, operators@, worker, true),
{
    let ghost s = operators@;
    let mut leaves: Vec<Vec<usize>> = Vec::new();
    let mut scopes: Vec<Vec<usize>> = Vec::new();
    let mut i: usize = 0;
    while i < operators.len()
        invariant
            i <= s.len(),
            s == operators@,
            leaves@.map_values(|v: Vec<usize>| v@) == sifted(s.take(i as int), s, worker, false),
            scopes@.map_values(|v: Vec<usize>| v@) == sifted(s.take(i as int), s, worker, true),
        decreases s.len() - i,
    {
        let op = &operators[i];
        let ghost t = s.take(i + 1);
        assert(t.drop_last() =~= s.take(i as int));
        assert(t.last() == *op);
        if op.worker == worker {
            let addr = copy_addr(&op.operator.addr);
            if is_subgraph_of(operators, worker, &op.operator.addr) {
                let ghost prev = scopes@;
                scopes.push(addr);
                assert(scopes@.map_values(|v: Vec<usize>| v@) =~= prev.map_values(
                    |v: Vec<usize>| v@,
                ).push(addr@));
            } else {
                let ghost prev = leaves@;
                leaves.push(addr);
                assert(leaves@.map_values(|v: Vec<usize>| v@) =~= prev.map_values(
                    |v: Vec<usize>| v@,
                ).push(addr@));
            }
        }
        i += 1;
    }
    assert(s.take(s.len() as int) =~= s);
    (leaves, scopes)
}

/// An edge of the dataflow graph: channel `channel` of the rewired channels,
/// from operator record `source` to operator record `target`.
#[derive(Clone, Copy, Debug, PartialEq, Eq, Structural)]
pub struct Edge {
    pub source: usize,
    pub channel: usize,
    pub target: usize,
}

/// The index of the first operator of `worker` in `ops` at address `a`, at or
/// after `from`, or -1.
pub open spec fn operator_at(ops: Seq<OperatorRecord>, worker: usize, a: Seq<usize>, from: int) -> int
    decreases ops.len() - from,
{
    if from < 0 || from >= ops.len() {
        -1
    } else if ops[from].worker == worker && ops[from].operator.addr@ == a {
        from
    } else {
        operator_at(ops, worker, a, from + 1)
    }
}

/// The edges of the rewired channels `chs`, in order: a channel whose source
/// is a leaf and whose both ends are operators of `worker` becomes an edge
/// between the first operator records at its ends.
pub open spec fn edges_of(
    chs: Seq<Channel>,
    ops: Seq<OperatorRecord>,
    leaves: Seq<Vec<usize>>,
    worker: usize,
) -> Seq<Edge>
    decreases chs.len(),
{
    if chs.len() == 0 {
        seq![]
    } else {
        let c = chs.last();
        let rest = edges_of(chs.drop_last(), ops, leaves, worker);
        let src = operator_at(ops, worker, c.spec_source(), 0);
        let tgt = operator_at(ops, worker, c.spec_target(), 0);
        if src >= 0 && tgt >= 0 && listed(leaves, c.spec_source()) {
            rest.push(Edge { source: src as usize, channel: (chs.len() - 1) as usize, target: tgt as usize })
        } else {
            rest
        }
    }
}

fn find_operator(ops: &Vec<OperatorRecord>, worker: usize, a: &Vec<usize>) -> (r: Option<usize>)
    ensures
        match r {
            Some(i) => i as int == operator_at(ops@, worker, a@, 0) && i < ops@.len(),
            None => operator_at(ops@, worker, a@, 0) == -1,
        },
{
    let mut i: usize = 0;
    while i < ops.len()
        invariant
            i <= ops@.len(),
            operator_at(ops@, worker, a@, 0) == operator_at(ops@, worker, a@, i as int),
        decreases ops@.len() - i,
    {
        if ops[i].worker == worker && same_addr(&ops[i].operator.addr, a) {
            return Some(i);
        }
        i += 1;
    }
    None
}

/// Attaches operators to a worker's rewired channels: each channel whose
/// source is one of the `leaves` and whose ends are both operators of the
/// worker becomes an edge between their records.
pub fn attach_operators(
    worker: usize,
    operators: &Vec<OperatorRecord>,
    channels: &Vec<Channel>,
    leaves: &Vec<Vec<usize>>,
) -> (r: Vec<Edge>)
    ensures
        r@ == edges_of(channels@, operators@, leaves@, worker),
{
    let ghost s = channels@;
    let mut out: Vec<Edge> = Vec::new();
    let mut k: usize = 0;
    while k < channels.len()
        invariant
            k <= s.len(),
            s == channels@,
            out@ == edges_of(s.take(k as int), operators@, leaves@, worker),
        decreases s.len() - k,
    {
        let c = &channels[k];
        let ghost t = s.take(k + 1);
        assert(t.drop_last() =~= s.take(k as int));
        assert(t.last() == *c);
        let source = c.source_addr();
        let target = c.target_addr();
        if contains_addr(leaves, source) {
            match (find_operator(operators, worker, source), find_operator(operators, worker, target)) {
                (Some(src), Some(tgt)) => {
                    out.push(Edge { source: src, channel: k, target: tgt });
                },
                _ => {},
            }
        }
        k += 1;
    }
    assert(s.take(s.len() as int) =~= s);
    out
}

} // verus!
