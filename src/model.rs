use vstd::prelude::*;

use crate::builtin::Nand;
use crate::bus_range::BusRange;
use crate::interface::Interface;

verus! {

/// Where the value carried by a wire comes from.
#[derive(Debug, Clone, Copy, PartialEq, Eq, Structural)]
pub enum Source {
    /// The enclosing chip's own input vector.
    Input,
    /// The output vector of the part with this index.
    Node(usize),
    /// A boolean literal.
    Const(bool),
}

/// Where the value carried by a wire goes.
#[derive(Debug, Clone, Copy, PartialEq, Eq, Structural)]
pub enum Sink {
    /// The enclosing chip's own output vector.
    Output,
    /// The input vector of the part with this index.
    Node(usize),
}

/// The bits that a wire carries. `in_range` selects them in the producer's vector,
/// `out_range` places them in the consumer's.
#[derive(Debug, Clone)]
pub enum ConnEdge {
    /// Passes the bits on within one evaluation.
    Combinatorial { in_range: BusRange, out_range: BusRange, buf: Vec<bool> },
    /// A register: consumers see `buf`, the value latched at the last clock; an
    /// evaluation fills `waiting`, which the next clock latches.
    Sequential { in_range: BusRange, out_range: BusRange, waiting: Vec<bool>, buf: Vec<bool> },
}

#[derive(Debug, Clone)]
pub struct Wire {
    pub from: Source,
    pub to: Sink,
    pub edge: ConnEdge,
}

/// A chip built from parts: `nodes` are the parts, `wires` connect them, `order`
/// lists the parts so that every combinatorial wire runs from an earlier part to a
/// later one.
pub struct NativeChip {
    pub nodes: Vec<Chip>,
    pub wires: Vec<Wire>,
    pub order: Vec<usize>,
    pub interface: Interface,
    pub in_width: usize,
    pub out_width: usize,
    pub depth: Ghost<nat>,
}

/// A runnable chip: a primitive or a composite.
pub enum Chip {
    Nand(Nand),
    Native(NativeChip),
}

pub open spec fn range_width(r: BusRange) -> int {
    r.end - r.start + 1
}

/// Width of the vector that `from` produces, among `nodes` in a chip whose input
/// vector has `in_w` bits.
pub open spec fn src_width(nodes: Seq<Chip>, in_w: int, from: Source) -> int {
    match from {
        Source::Input => in_w,
        Source::Node(j) => nodes[j as int].spec_out_width(),
        Source::Const(_) => 65536,
    }
}

pub open spec fn dst_width(nodes: Seq<Chip>, out_w: int, to: Sink) -> int {
    match to {
        Sink::Output => out_w,
        Sink::Node(j) => nodes[j as int].spec_in_width(),
    }
}

/// Wire `w` has consistent ranges and buffers, and both its ends fit the parts.
pub open spec fn wire_fits(nodes: Seq<Chip>, in_w: int, out_w: int, w: Wire) -> bool {
    &&& w.edge.lens_ok()
    &&& (w.from matches Source::Node(j) ==> j < nodes.len())
    &&& (w.to matches Sink::Node(j) ==> j < nodes.len())
    &&& w.edge.in_range().end < src_width(nodes, in_w, w.from)
    &&& w.edge.out_range().end < dst_width(nodes, out_w, w.to)
}

/// The wire `w` is combinatorial and runs from part `a` to part `b`.
pub open spec fn comb_link(w: Wire, a: usize, b: usize) -> bool {
    w.edge is Combinatorial && w.from == Source::Node(a) && w.to == Sink::Node(b)
}

/// Every combinatorial wire between parts runs from a part listed earlier in `order`
/// to one listed later.
pub open spec fn ordered(wires: Seq<Wire>, order: Seq<usize>) -> bool {
    forall|i: int, a: usize, b: usize|
        0 <= i < wires.len() && #[trigger] comb_link(wires[i], a, b) ==> exists|p: int, q: int|
            0 <= p < q < order.len() && order[p] == a && order[q] == b
}

impl ConnEdge {
    pub open spec fn in_range(self) -> BusRange {
        match self {
            ConnEdge::Combinatorial { in_range, .. } => in_range,
            ConnEdge::Sequential { in_range, .. } => in_range,
        }
    }

    pub open spec fn out_range(self) -> BusRange {
        match self {
            ConnEdge::Combinatorial { out_range, .. } => out_range,
            ConnEdge::Sequential { out_range, .. } => out_range,
        }
    }

    /// The bits that consumers read.
    pub open spec fn visible(self) -> Seq<bool> {
        match self {
            ConnEdge::Combinatorial { buf, .. } => buf@,
            ConnEdge::Sequential { buf, .. } => buf@,
        }
    }

    pub open spec fn width(self) -> int {
        range_width(self.in_range())
    }

    pub open spec fn lens_ok(self) -> bool {
        &&& self.in_range().start <= self.in_range().end
        &&& self.out_range().start <= self.out_range().end
        &&& range_width(self.in_range()) == range_width(self.out_range())
        &&& match self {
            ConnEdge::Combinatorial { buf, .. } => buf@.len() == self.width(),
            ConnEdge::Sequential { waiting, buf, .. } => buf@.len() == self.width()
                && waiting@.len() == self.width(),
        }
    }

    /// Same kind and ranges, and for a register the same latched value.
    pub open spec fn same_latched(self, o: ConnEdge) -> bool {
        match (self, o) {
            (
                ConnEdge::Combinatorial { in_range: i1, out_range: o1, .. },
                ConnEdge::Combinatorial { in_range: i2, out_range: o2, .. },
            ) => i1 == i2 && o1 == o2,
            (
                ConnEdge::Sequential { in_range: i1, out_range: o1, buf: b1, .. },
                ConnEdge::Sequential { in_range: i2, out_range: o2, buf: b2, .. },
            ) => i1 == i2 && o1 == o2 && b1@ == b2@,
            _ => false,
        }
    }

    /// `o` holds the same kind, ranges and values as `self`.
    pub open spec fn same_as(self, o: ConnEdge) -> bool {
        match (self, o) {
            (
                ConnEdge::Combinatorial { in_range: i1, out_range: o1, buf: b1 },
                ConnEdge::Combinatorial { in_range: i2, out_range: o2, buf: b2 },
            ) => i1 == i2 && o1 == o2 && b1@ == b2@,
            (
                ConnEdge::Sequential { in_range: i1, out_range: o1, waiting: w1, buf: b1 },
                ConnEdge::Sequential { in_range: i2, out_range: o2, waiting: w2, buf: b2 },
            ) => i1 == i2 && o1 == o2 && w1@ == w2@ && b1@ == b2@,
            _ => false,
        }
    }

    /// `o` is `self` after a clock: a register latches its waiting value, a plain
    /// wire is unchanged.
    pub open spec fn clocked_to(self, o: ConnEdge) -> bool {
        match (self, o) {
            (
                ConnEdge::Combinatorial { in_range: i1, out_range: o1, buf: b1 },
                ConnEdge::Combinatorial { in_range: i2, out_range: o2, buf: b2 },
            ) => i1 == i2 && o1 == o2 && b1@ == b2@,
            (
                ConnEdge::Sequential { in_range: i1, out_range: o1, waiting: w1, .. },
                ConnEdge::Sequential { in_range: i2, out_range: o2, waiting: w2, buf: b2 },
            ) => i1 == i2 && o1 == o2 && w1@ == w2@ && b2@ == w1@,
            _ => false,
        }
    }
}

impl Chip {
    pub open spec fn depth(self) -> nat {
        match self {
            Chip::Nand(_) => 0,
            Chip::Native(n) => n.depth@,
        }
    }

    pub open spec fn spec_in_width(self) -> int {
        match self {
            Chip::Nand(_) => 2,
            Chip::Native(n) => n.in_width as int,
        }
    }

    pub open spec fn spec_out_width(self) -> int {
        match self {
            Chip::Nand(_) => 1,
            Chip::Native(n) => n.out_width as int,
        }
    }

    /// The structural invariant of a chip and all of its parts.
    pub open spec fn wf(self) -> bool
        decreases self.depth(), 1nat,
    {
        match self {
            Chip::Nand(_) => true,
            Chip::Native(n) => n.wf(),
        }
    }

    /// `o` has the shape of `self` and the same latched register values, at every level.
    pub open spec fn latched_same(self, o: Chip) -> bool
        decreases self.depth(), 1nat,
    {
        &&& self.spec_in_width() == o.spec_in_width()
        &&& self.spec_out_width() == o.spec_out_width()
        &&& self.depth() == o.depth()
        &&& match (self, o) {
            (Chip::Nand(_), Chip::Nand(_)) => true,
            (Chip::Native(x), Chip::Native(y)) => x.latched_same(y),
            _ => false,
        }
    }

    /// `o` holds exactly the state of `self`: pins, parts, wires and every buffer, at
    /// every level.
    pub open spec fn same_state(self, o: Chip) -> bool
        decreases self.depth(), 1nat,
    {
        &&& self.spec_in_width() == o.spec_in_width()
        &&& self.spec_out_width() == o.spec_out_width()
        &&& self.depth() == o.depth()
        &&& match (self, o) {
            (Chip::Nand(_), Chip::Nand(_)) => true,
            (Chip::Native(x), Chip::Native(y)) => x.same_state(y),
            _ => false,
        }
    }

    /// `o` is `self` after one clock, at every level.
    pub open spec fn clocked_to(self, o: Chip) -> bool
        decreases self.depth(), 1nat,
    {
        &&& self.spec_in_width() == o.spec_in_width()
        &&& self.spec_out_width() == o.spec_out_width()
        &&& self.depth() == o.depth()
        &&& match (self, o) {
            (Chip::Nand(_), Chip::Nand(_)) => true,
            (Chip::Native(x), Chip::Native(y)) => x.clocked_to(y),
            _ => false,
        }
    }
}

impl NativeChip {
    pub open spec fn wire_ok(self, w: Wire) -> bool {
        wire_fits(self.nodes@, self.in_width as int, self.out_width as int, w)
    }

    /// The invariant of this level alone: the order and every wire fit the parts.
    pub open spec fn shallow_ok(self) -> bool {
        &&& forall|j: int| 0 <= j < self.order@.len() ==> #[trigger] self.order@[j] < self.nodes@.len()
        &&& forall|i: int| 0 <= i < self.wires@.len() ==> self.wire_ok(#[trigger] self.wires@[i])
        &&& ordered(self.wires@, self.order@)
        &&& self.order@.no_duplicates()
        &&& self.order@.len() == self.nodes@.len()
    }

    pub open spec fn wf(self) -> bool
        decreases self.depth@, 0nat,
    {
        &&& self.shallow_ok()
        &&& forall|k: int|
            0 <= k < self.nodes@.len() ==> (#[trigger] self.nodes@[k]).depth() < self.depth@
                && self.nodes@[k].wf()
    }

    pub open spec fn latched_same(self, o: NativeChip) -> bool
        decreases self.depth@, 0nat,
    {
        &&& self.nodes@.len() == o.nodes@.len()
        &&& self.wires@.len() == o.wires@.len()
        &&& self.order@ == o.order@
        &&& self.in_width == o.in_width
        &&& self.out_width == o.out_width
        &&& self.depth == o.depth
        &&& forall|i: int|
            0 <= i < self.wires@.len() ==> (#[trigger] self.wires@[i]).from == o.wires@[i].from
                && self.wires@[i].to == o.wires@[i].to && self.wires@[i].edge.same_latched(
                o.wires@[i].edge,
            )
        &&& forall|k: int|
            0 <= k < self.nodes@.len() ==> (#[trigger] self.nodes@[k]).depth() < self.depth@
                ==> self.nodes@[k].latched_same(o.nodes@[k])
    }

    pub open spec fn same_state(self, o: NativeChip) -> bool
        decreases self.depth@, 0nat,
    {
        &&& self.nodes@.len() == o.nodes@.len()
        &&& self.wires@.len() == o.wires@.len()
        &&& self.order@ == o.order@
        &&& self.in_width == o.in_width
        &&& self.out_width == o.out_width
        &&& self.depth == o.depth
        &&& self.interface.com_in@ == o.interface.com_in@
        &&& self.interface.com_out@ == o.interface.com_out@
        &&& self.interface.seq_in@ == o.interface.seq_in@
        &&& self.interface.seq_out@ == o.interface.seq_out@
        &&& forall|i: int|
            0 <= i < self.wires@.len() ==> (#[trigger] self.wires@[i]).from == o.wires@[i].from
                && self.wires@[i].to == o.wires@[i].to && self.wires@[i].edge.same_as(
                o.wires@[i].edge,
            )
        &&& forall|k: int|
            0 <= k < self.nodes@.len() ==> (#[trigger] self.nodes@[k]).depth() < self.depth@
                ==> self.nodes@[k].same_state(o.nodes@[k])
    }

    pub open spec fn clocked_to(self, o: NativeChip) -> bool
        decreases self.depth@, 0nat,
    {
        &&& self.nodes@.len() == o.nodes@.len()
        &&& self.wires@.len() == o.wires@.len()
        &&& self.order@ == o.order@
        &&& self.in_width == o.in_width
        &&& self.out_width == o.out_width
        &&& self.depth == o.depth
        &&& forall|i: int|
            0 <= i < self.wires@.len() ==> (#[trigger] self.wires@[i]).from == o.wires@[i].from
                && self.wires@[i].to == o.wires@[i].to && self.wires@[i].edge.clocked_to(
                o.wires@[i].edge,
            )
        &&& forall|k: int|
            0 <= k < self.nodes@.len() ==> (#[trigger] self.nodes@[k]).depth() < self.depth@
                ==> self.nodes@[k].clocked_to(o.nodes@[k])
    }
}

} // verus!
