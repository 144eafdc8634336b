use vstd::prelude::*;

use petgraph::graph::{DiGraph, NodeIndex};

use crate::builtin::{get_builtin, Nand};
use crate::bus_range::BusRange;
use crate::interface::{Interface, PinKind};
use crate::lex::chars_of;
use crate::model::{comb_link, ordered, range_width, wire_fits, Chip, ConnEdge, NativeChip, Sink, Source, Wire};
use crate::parser::{Argument, Chip as Definition, Connection, Implementation};
use crate::sim::{falses, fill_bits, pending};
use crate::symbol::{Symbol, Value};

verus! {

broadcast use vstd::string::group_string_axioms;

/// Why a definition could not be built into a runnable chip.
#[derive(Debug, Clone, PartialEq, Eq)]
pub enum BuildError {
    /// No primitive and no registered definition has this name.
    UnknownChip(String),
    /// The chip, or the part being wired, has no pin of this name, or the pin cannot
    /// be used on that side of a connection.
    UnknownPin(String),
    /// A number stands where a pin or wire name was expected.
    NumericPin(usize),
    /// The two sides of a connection carry different numbers of bits, or a range
    /// reaches outside its pin.
    BusWidthMismatch,
    /// Combinatorial wires form a loop that no register breaks.
    CyclicCombinatorialPath,
    /// A chip contains itself, directly or through its parts.
    CyclicChipDefinition(String),
    /// More parts, or more wires between them, than the graph can index.
    TooManyParts,
}

/// `a` and `b` list the same pins in each category.
pub open spec fn same_pins(a: Interface, b: Interface) -> bool {
    a.com_in@ == b.com_in@ && a.com_out@ == b.com_out@ && a.seq_in@ == b.seq_in@ && a.seq_out@
        == b.seq_out@
}

/// The wire holds its reset value: every bit of its buffers is false.
pub open spec fn is_reset(w: Wire) -> bool {
    w.edge.visible() == falses(w.edge.width() as nat) && pending(w.edge) == falses(w.edge.width() as nat)
}

/// Definitions by name, consulted when parts are built.
pub struct Registry {
    pub defs: Vec<(String, Definition)>,
}

/// `order` lists each of the `n` nodes once, and each edge runs from an earlier
/// entry to a later one.
pub open spec fn is_topo_order(n: nat, edges: Seq<(usize, usize)>, order: Seq<usize>) -> bool {
    &&& order.len() == n
    &&& order.no_duplicates()
    &&& forall|i: int| 0 <= i < order.len() ==> #[trigger] order[i] < n
    &&& forall|t: int|
        0 <= t < edges.len() ==> exists|i: int, j: int|
            0 <= i < j < order.len() && order[i] == (#[trigger] edges[t]).0 && order[j]
                == edges[t].1
}

/// Relies on `petgraph::algo::toposort`: on an acyclic graph it returns every node once,
/// each before its successors; on a graph with a cycle it returns an error. The graph is
/// made with `Graph::add_node` and `Graph::add_edge`, which panic past `u32::MAX` nodes
/// or edges and on an edge to a missing node: `requires` leaves those inputs out.
#[verifier::external_body]
fn topo_order(n: usize, edges: &Vec<(usize, usize)>) -> (r: Option<Vec<usize>>)
    requires
        n < u32::MAX,
        edges@.len() < u32::MAX,
        forall|t: int| 0 <= t < edges@.len() ==> (#[trigger] edges@[t]).0 < n && edges@[t].1 < n,
    ensures
        r matches Some(v) ==> is_topo_order(n as nat, edges@, v@),
        r is None ==> forall|o: Seq<usize>| !is_topo_order(n as nat, edges@, o),
{
    let mut g = DiGraph::<(), ()>::with_capacity(n, edges.len());
    for _ in 0..n {
        g.add_node(());
    }
    for &(a, b) in edges.iter() {
        g.add_edge(NodeIndex::new(a), NodeIndex::new(b), ());
    }
    match petgraph::algo::toposort(&g, None) {
        Ok(v) => Some(v.into_iter().map(|x| x.index()).collect()),
        Err(_) => None,
    }
}

/// Whether `a` and `b` hold the same characters.
pub fn str_eq(a: &str, b: &str) -> (r: bool)
    ensures
        r == (a@ == b@),
{
    let x = chars_of(a);
    let y = chars_of(b);
    if x.len() != y.len() {
        return false;
    }
    let mut i: usize = 0;
    while i < x.len()
        invariant
            x@ == a@,
            y@ == b@,
            x@.len() == y@.len(),
            i <= x@.len(),
            forall|j: int| 0 <= j < i ==> x@[j] == y@[j],
        decreases x@.len() - i,
    {
        if x[i] != y[i] {
            return false;
        }
        i += 1;
    }
    assert(x@ =~= y@);
    true
}

impl Registry {
    pub fn new() -> (r: Registry)
        ensures
            r.defs@.len() == 0,
    {
        Registry { defs: Vec::new() }
    }

    /// Adds a definition; an earlier one of the same name keeps precedence.
    pub fn register(&mut self, name: String, def: Definition)
        ensures
            final(self).defs@ == old(self).defs@.push((name, def)),
    {
        self.defs.push((name, def));
    }

    /// The first definition registered under `name`.
    pub fn lookup(&self, name: &str) -> (r: Option<&Definition>)
        ensures
            r is None ==> forall|i: int| 0 <= i < self.defs@.len() ==> (#[trigger] self.defs@[i]).0@ != name@,
            r matches Some(d) ==> exists|i: int|
                0 <= i < self.defs@.len() && (#[trigger] self.defs@[i]).0@ == name@ && self.defs@[i].1
                    == *d && forall|j: int| 0 <= j < i ==> (#[trigger] self.defs@[j]).0@ != name@,
    {
        let mut i: usize = 0;
        while i < self.defs.len()
            invariant
                i <= self.defs@.len(),
                forall|j: int| 0 <= j < i ==> (#[trigger] self.defs@[j]).0@ != name@,
            decreases self.defs@.len() - i,
        {
            if str_eq(self.defs[i].0.as_str(), name) {
                assert(self.defs@[i as int].0@ == name@);
                return Some(&self.defs[i].1);
            }
            i += 1;
        }
        None
    }
}

/// The range of the first pin of `pins`, from index `i` on, called `name`.
pub open spec fn first_pin(pins: Seq<(String, BusRange)>, name: Seq<char>, i: int) -> Option<BusRange>
    decreases pins.len() - i,
{
    if i < 0 || i >= pins.len() {
        None
    } else if pins[i].0@ == name {
        Some(pins[i].1)
    } else {
        first_pin(pins, name, i + 1)
    }
}

/// The category and bits of the pin of `iface` called `name`, looked for among
/// combinatorial inputs, combinatorial outputs, sequential inputs, sequential outputs,
/// in that order.
pub open spec fn pin_of(iface: Interface, name: Seq<char>) -> Option<(PinKind, BusRange)> {
    match first_pin(iface.com_in@, name, 0) {
        Some(b) => Some((PinKind::ComIn, b)),
        None => match first_pin(iface.com_out@, name, 0) {
            Some(b) => Some((PinKind::ComOut, b)),
            None => match first_pin(iface.seq_in@, name, 0) {
                Some(b) => Some((PinKind::SeqIn, b)),
                None => match first_pin(iface.seq_out@, name, 0) {
                    Some(b) => Some((PinKind::SeqOut, b)),
                    None => None,
                },
            },
        },
    }
}

/// The range of the first pin of `pins` called `name`.
fn find_in(pins: &Vec<(String, BusRange)>, name: &str) -> (r: Option<BusRange>)
    ensures
        r == first_pin(pins@, name@, 0),
{
    let mut i: usize = 0;
    while i < pins.len()
        invariant
            i <= pins@.len(),
            first_pin(pins@, name@, i as int) == first_pin(pins@, name@, 0),
        decreases pins@.len() - i,
    {
        if str_eq(pins[i].0.as_str(), name) {
            return Some(pins[i].1);
        }
        i += 1;
    }
    None
}

/// The category and bits of the pin called `name`.
fn find_pin(iface: &Interface, name: &str) -> (r: Option<(PinKind, BusRange)>)
    ensures
        r == pin_of(*iface, name@),
{
    if let Some(br) = find_in(&iface.com_in, name) {
        return Some((PinKind::ComIn, br));
    }
    if let Some(br) = find_in(&iface.com_out, name) {
        return Some((PinKind::ComOut, br));
    }
    if let Some(br) = find_in(&iface.seq_in, name) {
        return Some((PinKind::SeqIn, br));
    }
    if let Some(br) = find_in(&iface.seq_out, name) {
        return Some((PinKind::SeqOut, br));
    }
    None
}

/// One past the highest bit index among the first `k` of `pins`.
pub open spec fn pins_span(pins: Seq<(String, BusRange)>, k: int) -> int
    decreases k,
{
    if k <= 0 || k > pins.len() {
        0
    } else {
        let m = pins_span(pins, k - 1);
        let e = pins[k - 1].1.end + 1;
        if e > m {
            e
        } else {
            m
        }
    }
}

/// Width of the input vector of a chip with pins `i`: one past the highest input bit.
pub open spec fn input_width(i: Interface) -> int {
    let a = pins_span(i.com_in@, i.com_in@.len() as int);
    let b = pins_span(i.seq_in@, i.seq_in@.len() as int);
    if a > b {
        a
    } else {
        b
    }
}

/// Width of the output vector of a chip with pins `i`.
pub open spec fn output_width(i: Interface) -> int {
    let a = pins_span(i.com_out@, i.com_out@.len() as int);
    let b = pins_span(i.seq_out@, i.seq_out@.len() as int);
    if a > b {
        a
    } else {
        b
    }
}

/// The number of bits that `pins` span: one past the highest index.
fn span(pins: &Vec<(String, BusRange)>) -> (r: usize)
    ensures
        r <= 65536,
        r == pins_span(pins@, pins@.len() as int),
{
    let mut m: usize = 0;
    let mut i: usize = 0;
    while i < pins.len()
        invariant
            i <= pins@.len(),
            m <= 65536,
            m == pins_span(pins@, i as int),
        decreases pins@.len() - i,
    {
        let e = pins[i].1.end as usize + 1;
        if e > m {
            m = e;
        }
        i += 1;
    }
    m
}

/// The bits `sub` of a pin that occupies `pin`; all of them when `sub` is absent.
fn narrow(pin: BusRange, sub: Option<BusRange>) -> (r: Result<BusRange, BuildError>)
    ensures
        r matches Ok(b) ==> b.start <= b.end && pin.start <= b.start && b.end <= pin.end,
        sub matches Some(s) ==> (r matches Ok(b) ==> range_width(b) == range_width(s)),
{
    if pin.start > pin.end {
        return Err(BuildError::BusWidthMismatch);
    }
    match sub {
        None => Ok(pin),
        Some(b) => {
            if b.start <= b.end && (pin.start as u32) + (b.end as u32) <= pin.end as u32 {
                Ok(BusRange { start: pin.start + b.start, end: pin.start + b.end })
            } else {
                Err(BuildError::BusWidthMismatch)
            }
        },
    }
}

/// A wire from `from` to `to` with its buffers at their reset value, after checking
/// that its two ranges have one width and fit both ends.
fn make_wire(
    nodes: &Vec<Chip>,
    in_w: usize,
    out_w: usize,
    from: Source,
    to: Sink,
    in_range: BusRange,
    out_range: BusRange,
    sequential: bool,
) -> (r: Result<Wire, BuildError>)
    ensures
        r matches Ok(w) ==> wire_fits(nodes@, in_w as int, out_w as int, w) && w.from == from
            && w.to == to && (w.edge is Sequential <==> sequential) && is_reset(w),
{
    if !(in_range.start <= in_range.end && out_range.start <= out_range.end && in_range.end
        - in_range.start == out_range.end - out_range.start) {
        return Err(BuildError::BusWidthMismatch);
    }
    let src_ok = match from {
        Source::Input => (in_range.end as usize) < in_w,
        Source::Node(j) => j < nodes.len() && (in_range.end as usize) < nodes[j].out_width(),
        Source::Const(_) => true,
    };
    let dst_ok = match to {
        Sink::Output => (out_range.end as usize) < out_w,
        Sink::Node(j) => j < nodes.len() && (out_range.end as usize) < nodes[j].in_width(),
    };
    if !(src_ok && dst_ok) {
        return Err(BuildError::BusWidthMismatch);
    }
    let width = (in_range.end - in_range.start) as usize + 1;
    let edge = if sequential {
        ConnEdge::Sequential {
            in_range,
            out_range,
            waiting: fill_bits(false, width),
            buf: fill_bits(false, width),
        }
    } else {
        ConnEdge::Combinatorial { in_range, out_range, buf: fill_bits(false, width) }
    };
    Ok(Wire { from, to, edge })
}

fn value_text(v: &Value) -> (r: String) {
    match v {
        Value::True => "true".to_string(),
        Value::False => "false".to_string(),
    }
}

/// Wires one argument of part `k`: to the chip's own pins or a literal at once, to a
/// wire between parts by recording it as a producer or a consumer of that wire.
fn wire_arg(
    own: &Interface,
    ifaces: &Vec<Interface>,
    nodes: &Vec<Chip>,
    in_w: usize,
    out_w: usize,
    k: usize,
    a: &Argument,
    wires: &mut Vec<Wire>,
    producers: &mut Vec<(String, usize, BusRange, bool)>,
    consumers: &mut Vec<(String, usize, BusRange, Option<BusRange>, bool)>,
) -> (r: Result<(), BuildError>)
    requires
        k < ifaces@.len(),
        forall|i: int| 0 <= i < old(wires)@.len() ==> wire_fits(nodes@, in_w as int, out_w as int, #[trigger] old(wires)@[i]) && is_reset(old(wires)@[i]),
    ensures
        forall|i: int| 0 <= i < final(wires)@.len() ==> wire_fits(nodes@, in_w as int, out_w as int, #[trigger] final(wires)@[i]) && is_reset(final(wires)@[i]),
{
    let p = match &a.internal {
        Symbol::Name(p) => p,
        Symbol::Number(n) => return Err(BuildError::NumericPin(*n)),
        Symbol::Value(v) => return Err(BuildError::UnknownPin(value_text(v))),
    };
    let (kind, pr) = match find_pin(&ifaces[k], p.as_str()) {
        Some(x) => x,
        None => return Err(BuildError::UnknownPin(p.clone())),
    };
    let ir = narrow(pr, a.internal_bus)?;
    let input = matches!(kind, PinKind::ComIn | PinKind::SeqIn);
    let seq = matches!(kind, PinKind::SeqIn | PinKind::SeqOut);
    let wire = match &a.external {
        Symbol::Number(n) => return Err(BuildError::NumericPin(*n)),
        Symbol::Value(v) => {
            if !input {
                return Err(BuildError::UnknownPin(p.clone()));
            }
            let cr = BusRange { start: 0, end: ir.end - ir.start };
            let b = matches!(v, Value::True);
            make_wire(nodes, in_w, out_w, Source::Const(b), Sink::Node(k), cr, ir, seq)?
        },
        Symbol::Name(q) => match find_pin(own, q.as_str()) {
            Some((pk, qr)) => {
                let er = narrow(qr, a.external_bus)?;
                let own_input = matches!(pk, PinKind::ComIn | PinKind::SeqIn);
                if input != own_input {
                    return Err(BuildError::UnknownPin(q.clone()));
                }
                if input {
                    make_wire(nodes, in_w, out_w, Source::Input, Sink::Node(k), er, ir, seq)?
                } else {
                    make_wire(nodes, in_w, out_w, Source::Node(k), Sink::Output, ir, er, seq)?
                }
            },
            None => {
                if input {
                    consumers.push((q.clone(), k, ir, a.external_bus, seq));
                } else {
                    if let Some(eb) = a.external_bus {
                        if !(eb.start <= eb.end && eb.end - eb.start == ir.end - ir.start) {
                            return Err(BuildError::BusWidthMismatch);
                        }
                    }
                    producers.push((q.clone(), k, ir, seq));
                }
                return Ok(());
            },
        },
    };
    wires.push(wire);
    Ok(())
}

/// Joins each consumer of a wire between parts to the first producer of that wire.
fn connect(
    nodes: &Vec<Chip>,
    in_w: usize,
    out_w: usize,
    wires: &mut Vec<Wire>,
    producers: &Vec<(String, usize, BusRange, bool)>,
    consumers: &Vec<(String, usize, BusRange, Option<BusRange>, bool)>,
) -> (r: Result<(), BuildError>)
    requires
        forall|i: int| 0 <= i < old(wires)@.len() ==> wire_fits(nodes@, in_w as int, out_w as int, #[trigger] old(wires)@[i]) && is_reset(old(wires)@[i]),
    ensures
        forall|i: int| 0 <= i < final(wires)@.len() ==> wire_fits(nodes@, in_w as int, out_w as int, #[trigger] final(wires)@[i]) && is_reset(final(wires)@[i]),
{
    let mut c: usize = 0;
    while c < consumers.len()
        invariant
            c <= consumers@.len(),
            forall|i: int| 0 <= i < wires@.len() ==> wire_fits(nodes@, in_w as int, out_w as int, #[trigger] wires@[i]) && is_reset(wires@[i]),
        decreases consumers@.len() - c,
    {
        let (name, ck, cr, cb, cseq) = (&consumers[c].0, consumers[c].1, consumers[c].2, consumers[c].3, consumers[c].4);
        let mut found: Option<(usize, BusRange, bool)> = None;
        let mut j: usize = 0;
        while j < producers.len()
            invariant
                j <= producers@.len(),
            decreases producers@.len() - j,
        {
            if str_eq(producers[j].0.as_str(), name.as_str()) {
                found = Some((producers[j].1, producers[j].2, producers[j].3));
                break;
            }
            j += 1;
        }
        let (pk, pr, pseq) = match found {
            Some(x) => x,
            None => return Err(BuildError::UnknownPin(name.clone())),
        };
        let src = narrow(pr, cb)?;
        let w = make_wire(nodes, in_w, out_w, Source::Node(pk), Sink::Node(ck), src, cr, pseq || cseq)?;
        wires.push(w);
        c += 1;
    }
    Ok(())
}

/// Some argument of `conns` gives bus ranges on both sides, of different widths.
pub open spec fn has_explicit_mismatch(conns: Seq<Connection>) -> bool {
    exists|k: int, j: int|
        0 <= k < conns.len() && 0 <= j < conns[k].inputs@.len() && explicit_mismatch(
            #[trigger] conns[k].inputs@[j],
        )
}

pub open spec fn explicit_mismatch(a: Argument) -> bool {
    a.internal_bus matches Some(ib) && a.external_bus matches Some(eb) && range_width(ib)
        != range_width(eb)
}

fn find_explicit_mismatch(conns: &Vec<Connection>) -> (r: bool)
    ensures
        r == has_explicit_mismatch(conns@),
{
    let mut k: usize = 0;
    while k < conns.len()
        invariant
            k <= conns@.len(),
            forall|k2: int, j: int|
                0 <= k2 < k && 0 <= j < conns@[k2].inputs@.len() ==> !explicit_mismatch(
                    #[trigger] conns@[k2].inputs@[j],
                ),
        decreases conns@.len() - k,
    {
        let mut j: usize = 0;
        while j < conns[k].inputs.len()
            invariant
                k < conns@.len(),
                j <= conns@[k as int].inputs@.len(),
                forall|k2: int, j2: int|
                    0 <= k2 < k && 0 <= j2 < conns@[k2].inputs@.len() ==> !explicit_mismatch(
                        #[trigger] conns@[k2].inputs@[j2],
                    ),
                forall|j2: int| 0 <= j2 < j ==> !explicit_mismatch(#[trigger] conns@[k as int].inputs@[j2]),
            decreases conns@[k as int].inputs@.len() - j,
        {
            let a = &conns[k].inputs[j];
            if let (Some(ib), Some(eb)) = (a.internal_bus, a.external_bus) {
                if (ib.end as i32) - (ib.start as i32) != (eb.end as i32) - (eb.start as i32) {
                    assert(explicit_mismatch(conns@[k as int].inputs@[j as int]));
                    return true;
                }
            }
            j += 1;
        }
        k += 1;
    }
    false
}

/// Every combinatorial wire between parts of `n` runs from a part listed earlier in
/// `n.order` to one listed later.
pub open spec fn order_respects_wires(n: NativeChip) -> bool {
    ordered(n.wires@, n.order@)
}

/// Each step of `path` follows a combinatorial wire of `n` from one part to the next.
pub open spec fn comb_path(n: NativeChip, path: Seq<usize>) -> bool {
    forall|t: int| 0 <= t < path.len() - 1 ==> #[trigger] linked(n, path[t], path[t + 1])
}

/// Some combinatorial wire of `n` runs from part `a` to part `b`.
pub open spec fn linked(n: NativeChip, a: usize, b: usize) -> bool {
    exists|i: int| 0 <= i < n.wires@.len() && #[trigger] comb_link(n.wires@[i], a, b)
}

proof fn lemma_path_climbs(n: NativeChip, path: Seq<usize>, t: int)
    requires
        order_respects_wires(n),
        n.order@.no_duplicates(),
        comb_path(n, path),
        1 <= t < path.len(),
    ensures
        exists|p: int, q: int|
            0 <= p < q < n.order@.len() && n.order@[p] == path[0] && n.order@[q] == path[t],
    decreases t,
{
    let u = t - 1;
    assert(linked(n, path[u], path[u + 1]));
    assert(u + 1 == t);
    let i = choose|i: int|
        0 <= i < n.wires@.len() && #[trigger] comb_link(n.wires@[i], path[t - 1], path[t]);
    let (step_from, step_to) = choose|p: int, q: int|
        0 <= p < q < n.order@.len() && n.order@[p] == path[t - 1] && n.order@[q] == path[t];
    if t > 1 {
        lemma_path_climbs(n, path, t - 1);
        let (first, reached) = choose|p: int, q: int|
            0 <= p < q < n.order@.len() && n.order@[p] == path[0] && n.order@[q] == path[t - 1];
        assert(reached == step_from);
    }
}

/// A built chip holds no loop of combinatorial wires: a path that follows such wires
/// from part to part never comes back to the part it started from.
pub proof fn lemma_no_combinatorial_loop(n: NativeChip, path: Seq<usize>)
    requires
        order_respects_wires(n),
        n.order@.no_duplicates(),
        path.len() >= 2,
        comb_path(n, path),
    ensures
        path[0] != path[path.len() - 1],
{
    lemma_path_climbs(n, path, path.len() - 1);
}

/// The combinatorial wires between parts, as pairs of node indices.
fn comb_edges(wires: &Vec<Wire>, n: usize) -> (r: Vec<(usize, usize)>)
    requires
        forall|i: int| 0 <= i < wires@.len() ==> ((#[trigger] wires@[i]).from matches Source::Node(j) ==> j < n)
            && (wires@[i].to matches Sink::Node(j) ==> j < n),
    ensures
        forall|t: int| 0 <= t < r@.len() ==> (#[trigger] r@[t]).0 < n && r@[t].1 < n,
        forall|i: int, a: usize, b: usize|
            0 <= i < wires@.len() && #[trigger] comb_link(wires@[i], a, b) ==> r@.contains((a, b)),
{
    let mut r: Vec<(usize, usize)> = Vec::new();
    let mut i: usize = 0;
    while i < wires.len()
        invariant
            i <= wires@.len(),
            forall|i2: int| 0 <= i2 < wires@.len() ==> ((#[trigger] wires@[i2]).from matches Source::Node(j) ==> j < n)
                && (wires@[i2].to matches Sink::Node(j) ==> j < n),
            forall|t: int| 0 <= t < r@.len() ==> (#[trigger] r@[t]).0 < n && r@[t].1 < n,
            forall|i2: int, a: usize, b: usize|
                0 <= i2 < i && #[trigger] comb_link(wires@[i2], a, b) ==> r@.contains((a, b)),
        decreases wires@.len() - i,
    {
        if let (Source::Node(a), Sink::Node(b), ConnEdge::Combinatorial { .. }) = (wires[i].from, wires[i].to, &wires[i].edge) {
            let ghost r0 = r@;
            r.push((a, b));
            proof {
                assert(r@[r@.len() - 1] == (a, b));
                assert forall|i2: int, a2: usize, b2: usize|
                    0 <= i2 < i + 1 && #[trigger] comb_link(wires@[i2], a2, b2) implies r@.contains((a2, b2)) by {
                    if i2 < i {
                        let t = choose|t: int| 0 <= t < r0.len() && r0[t] == (a2, b2);
                        assert(r@[t] == (a2, b2));
                    } else {
                        assert(r@[r@.len() - 1] == (a2, b2));
                    }
                }
            }
        }
        i += 1;
    }
    r
}

/// Builds the part that `sym` names, with its interface.
fn resolve_part(sym: &Symbol, reg: &Registry, stack: &mut Vec<String>, fuel: usize) -> (r: Result<(Chip, Interface), BuildError>)
    ensures
        r matches Ok((c, _)) ==> c.wf(),
    decreases fuel, 0nat,
{
    let n = match sym {
        Symbol::Name(n) => n,
        Symbol::Number(k) => return Err(BuildError::NumericPin(*k)),
        Symbol::Value(v) => return Err(BuildError::UnknownChip(value_text(v))),
    };
    if let Some(c) = get_builtin(n.as_str()) {
        let g = Nand;
        return Ok((c, g.interface()));
    }
    let mut i: usize = 0;
    while i < stack.len()
        invariant
            i <= stack@.len(),
        decreases stack@.len() - i,
    {
        if str_eq(stack[i].as_str(), n.as_str()) {
            return Err(BuildError::CyclicChipDefinition(n.clone()));
        }
        i += 1;
    }
    let d = match reg.lookup(n.as_str()) {
        Some(d) => d,
        None => return Err(BuildError::UnknownChip(n.clone())),
    };
    if fuel == 0 {
        return Err(BuildError::CyclicChipDefinition(n.clone()));
    }
    stack.push(n.clone());
    let r = build_in(d, reg, stack, fuel - 1);
    stack.pop();
    let c = r?;
    Ok((c, d.interface.copy()))
}

/// Builds `def`; `stack` names the definitions being built around it, and `fuel`
/// bounds how deep definitions may nest.
fn build_in(def: &Definition, reg: &Registry, stack: &mut Vec<String>, fuel: usize) -> (r: Result<Chip, BuildError>)
    ensures
        r matches Ok(c) ==> c.wf(),
        def.logic matches Implementation::Native(conns) && has_explicit_mismatch(conns@) ==> r
            == Err::<Chip, BuildError>(BuildError::BusWidthMismatch),
        def.logic matches Implementation::Builtin(Symbol::Name(n)) ==> (n@ == crate::builtin::nand_name() ==> r
            == Ok::<Chip, BuildError>(Chip::Nand(Nand))) && (n@ != crate::builtin::nand_name() ==> r
            == Err::<Chip, BuildError>(BuildError::UnknownChip(n))),
        r matches Ok(Chip::Native(n)) ==> order_respects_wires(n) && n.order@.no_duplicates(),
        r matches Ok(Chip::Native(n)) ==> same_pins(n.interface, def.interface) && n.in_width
            == input_width(def.interface) && n.out_width == output_width(def.interface),
        r matches Ok(Chip::Native(n)) ==> forall|i: int| 0 <= i < n.wires@.len() ==> is_reset(#[trigger] n.wires@[i]),
    decreases fuel, 2nat,
{
    match &def.logic {
        Implementation::Builtin(sym) => match sym {
            Symbol::Name(n) => match get_builtin(n.as_str()) {
                Some(c) => Ok(c),
                None => Err(BuildError::UnknownChip(n.clone())),
            },
            Symbol::Number(k) => Err(BuildError::NumericPin(*k)),
            Symbol::Value(v) => Err(BuildError::UnknownChip(value_text(v))),
        },
        Implementation::Native(conns) => build_native(&def.interface, conns, reg, stack, fuel),
    }
}

/// Builds a chip from its parts list.
fn build_native(
    own: &Interface,
    conns: &Vec<Connection>,
    reg: &Registry,
    stack: &mut Vec<String>,
    fuel: usize,
) -> (r: Result<Chip, BuildError>)
    ensures
        r matches Ok(c) ==> c.wf(),
        has_explicit_mismatch(conns@) ==> r == Err::<Chip, BuildError>(BuildError::BusWidthMismatch),
        r matches Ok(Chip::Native(n)) ==> order_respects_wires(n) && n.order@.no_duplicates(),
        r matches Ok(Chip::Native(n)) ==> forall|i: int| 0 <= i < n.wires@.len() ==> is_reset(#[trigger] n.wires@[i]),
        r matches Ok(Chip::Native(n)) ==> same_pins(n.interface, *own) && n.in_width == input_width(*own)
            && n.out_width == output_width(*own),
        r matches Ok(c) ==> c is Native,
    decreases fuel, 1nat,
{
    if find_explicit_mismatch(conns) {
        return Err(BuildError::BusWidthMismatch);
    }
    let mut nodes: Vec<Chip> = Vec::new();
    let mut ifaces: Vec<Interface> = Vec::new();
    let ghost mut d: nat = 0;
    let mut k: usize = 0;
    while k < conns.len()
        invariant
            k <= conns@.len(),
            nodes@.len() == k,
            ifaces@.len() == k,
            forall|q: int| 0 <= q < k ==> (#[trigger] nodes@[q]).wf() && nodes@[q].depth() <= d,
            !has_explicit_mismatch(conns@),
        decreases conns@.len() - k,
    {
        let (c, iface) = resolve_part(&conns[k].chip_name, reg, stack, fuel)?;
        proof {
            if c.depth() > d {
                d = c.depth();
            }
        }
        nodes.push(c);
        ifaces.push(iface);
        k += 1;
    }
    let in_w = {
        let a = span(&own.com_in);
        let b = span(&own.seq_in);
        if a > b { a } else { b }
    };
    let out_w = {
        let a = span(&own.com_out);
        let b = span(&own.seq_out);
        if a > b { a } else { b }
    };
    let mut wires: Vec<Wire> = Vec::new();
    let mut producers: Vec<(String, usize, BusRange, bool)> = Vec::new();
    let mut consumers: Vec<(String, usize, BusRange, Option<BusRange>, bool)> = Vec::new();
    let mut k: usize = 0;
    while k < conns.len()
        invariant
            k <= conns@.len(),
            ifaces@.len() == conns@.len(),
            !has_explicit_mismatch(conns@),
            forall|i: int| 0 <= i < wires@.len() ==> wire_fits(nodes@, in_w as int, out_w as int, #[trigger] wires@[i]) && is_reset(wires@[i]),
        decreases conns@.len() - k,
    {
        let mut j: usize = 0;
        while j < conns[k].inputs.len()
            invariant
                k < conns@.len(),
                j <= conns@[k as int].inputs@.len(),
                ifaces@.len() == conns@.len(),
                !has_explicit_mismatch(conns@),
                forall|i: int| 0 <= i < wires@.len() ==> wire_fits(nodes@, in_w as int, out_w as int, #[trigger] wires@[i]) && is_reset(wires@[i]),
            decreases conns@[k as int].inputs@.len() - j,
        {
            wire_arg(own, &ifaces, &nodes, in_w, out_w, k, &conns[k].inputs[j], &mut wires, &mut producers, &mut consumers)?;
            j += 1;
        }
        k += 1;
    }
    connect(&nodes, in_w, out_w, &mut wires, &producers, &consumers)?;
    if nodes.len() >= 4294967295 {
        return Err(BuildError::TooManyParts);
    }
    let edges = comb_edges(&wires, nodes.len());
    if edges.len() >= 4294967295 {
        return Err(BuildError::TooManyParts);
    }
    let order = match topo_order(nodes.len(), &edges) {
        Some(o) => o,
        None => return Err(BuildError::CyclicCombinatorialPath),
    };
    let n = NativeChip {
        nodes,
        wires,
        order,
        interface: own.copy(),
        in_width: in_w,
        out_width: out_w,
        depth: Ghost(d + 1),
    };
    proof {
        assert forall|i: int| 0 <= i < n.wires@.len() implies n.wire_ok(#[trigger] n.wires@[i]) by {}
        assert forall|i: int, a: usize, b: usize|
            0 <= i < n.wires@.len() && #[trigger] comb_link(n.wires@[i], a, b) implies exists|p: int, q: int|
            0 <= p < q < n.order@.len() && n.order@[p] == a && n.order@[q] == b by {
            assert(comb_link(wires@[i], a, b));
            assert(edges@.contains((a, b)));
            let t = choose|t: int| 0 <= t < edges@.len() && edges@[t] == (a, b);
            assert(is_topo_order(n.nodes@.len(), edges@, n.order@));
            assert(exists|p: int, q: int|
                0 <= p < q < n.order@.len() && n.order@[p] == edges@[t].0 && n.order@[q] == edges@[t].1);
        }
    }
    Ok(Chip::Native(n))
}

/// Builds the runnable chip that `def` describes, looking parts up in `reg`.
pub fn build(def: &Definition, reg: &Registry) -> (r: Result<Chip, BuildError>)
    ensures
        r matches Ok(c) ==> c.wf(),
        def.logic matches Implementation::Native(conns) && has_explicit_mismatch(conns@) ==> r
            == Err::<Chip, BuildError>(BuildError::BusWidthMismatch),
        def.logic matches Implementation::Builtin(Symbol::Name(n)) ==> (n@ == crate::builtin::nand_name() ==> r
            == Ok::<Chip, BuildError>(Chip::Nand(Nand))) && (n@ != crate::builtin::nand_name() ==> r
            == Err::<Chip, BuildError>(BuildError::UnknownChip(n))),
        r matches Ok(Chip::Native(n)) ==> order_respects_wires(n) && n.order@.no_duplicates(),
        r matches Ok(Chip::Native(n)) ==> same_pins(n.interface, def.interface) && n.in_width
            == input_width(def.interface) && n.out_width == output_width(def.interface),
        r matches Ok(Chip::Native(n)) ==> forall|i: int| 0 <= i < n.wires@.len() ==> is_reset(#[trigger] n.wires@[i]),
{
    let mut stack: Vec<String> = Vec::new();
    let fuel = if reg.defs.len() < usize::MAX { reg.defs.len() + 1 } else { reg.defs.len() };
    build_in(def, reg, &mut stack, fuel)
}

} // verus!
