use vstd::prelude::*;

use crate::bus_range::BusRange;
use crate::interface::Interface;
use crate::model::{comb_link, ordered, range_width, Chip, ConnEdge, NativeChip, Sink, Source, Wire};

verus! {

/// The bits `v[r.start..=r.end]`.
pub fn slice_bits(v: &[bool], r: BusRange) -> (out: Vec<bool>)
    requires
        r.start <= r.end,
        r.end < v@.len(),
    ensures
        out@ == v@.subrange(r.start as int, r.end + 1),
{
    let mut out: Vec<bool> = Vec::new();
    let mut i = r.start as usize;
    while i <= r.end as usize
        invariant
            r.start <= i <= r.end + 1,
            r.end < v@.len(),
            out@ == v@.subrange(r.start as int, i as int),
        decreases r.end + 1 - i,
    {
        out.push(v[i]);
        i += 1;
        assert(out@ =~= v@.subrange(r.start as int, i as int));
    }
    out
}

/// `n` copies of `b`.
pub fn fill_bits(b: bool, n: usize) -> (out: Vec<bool>)
    ensures
        out@ == Seq::new(n as nat, |_i: int| b),
{
    let mut out: Vec<bool> = Vec::new();
    let mut i: usize = 0;
    while i < n
        invariant
            i <= n,
            out@ == Seq::new(i as nat, |_i: int| b),
        decreases n - i,
    {
        out.push(b);
        i += 1;
        assert(out@ =~= Seq::new(i as nat, |_i: int| b));
    }
    out
}

/// Writes `bits` over `v[r.start..=r.end]`.
pub fn write_bits(v: &mut Vec<bool>, r: BusRange, bits: &Vec<bool>)
    requires
        r.start <= r.end,
        r.end < old(v)@.len(),
        bits@.len() == range_width(r),
    ensures
        final(v)@ == old(v)@.subrange(0, r.start as int) + bits@ + old(v)@.subrange(
            r.end + 1,
            old(v)@.len() as int,
        ),
{
    let ghost v0 = v@;
    let mut i = r.start as usize;
    while i <= r.end as usize
        invariant
            r.start <= i <= r.end + 1,
            r.end < v0.len(),
            bits@.len() == range_width(r),
            v@.len() == v0.len(),
            forall|j: int| 0 <= j < v0.len() ==> #[trigger] v@[j] == if r.start <= j < i {
                bits@[j - r.start]
            } else {
                v0[j]
            },
        decreases r.end + 1 - i,
    {
        v[i] = bits[i - r.start as usize];
        i += 1;
    }
    assert(v@ =~= v0.subrange(0, r.start as int) + bits@ + v0.subrange(r.end + 1, v0.len() as int));
}

/// The bits a wire hands to its consumer.
pub open spec fn wire_value(w: Wire) -> Seq<bool> {
    match w.from {
        Source::Const(b) => Seq::new(w.edge.width() as nat, |_i: int| b),
        _ => w.edge.visible(),
    }
}

/// `base` with the value of every wire among the first `k` of `wires` that feeds the
/// chip's outputs written over the bits it targets, in wire order.
pub open spec fn gather_outputs(wires: Seq<Wire>, k: int, base: Seq<bool>) -> Seq<bool>
    decreases k,
{
    if k <= 0 || k > wires.len() {
        base
    } else {
        let before = gather_outputs(wires, k - 1, base);
        let w = wires[k - 1];
        if w.to is Output {
            let r = w.edge.out_range();
            before.subrange(0, r.start as int) + wire_value(w) + before.subrange(
                r.end + 1,
                before.len() as int,
            )
        } else {
            before
        }
    }
}

/// `n` false bits.
pub open spec fn falses(n: nat) -> Seq<bool> {
    Seq::new(n, |_i: int| false)
}

/// `base` with the value of every wire among the first `m` of `wires` that feeds part
/// `k` written over the bits it targets, in wire order.
pub open spec fn gather_inputs(wires: Seq<Wire>, k: usize, m: int, base: Seq<bool>) -> Seq<bool>
    decreases m,
{
    if m <= 0 || m > wires.len() {
        base
    } else {
        let before = gather_inputs(wires, k, m - 1, base);
        let w = wires[m - 1];
        if w.to == Sink::Node(k) {
            let r = w.edge.out_range();
            before.subrange(0, r.start as int) + wire_value(w) + before.subrange(
                r.end + 1,
                before.len() as int,
            )
        } else {
            before
        }
    }
}

/// The input vector that part `k` of `n` reads from `wires`.
pub open spec fn part_input(n: NativeChip, wires: Seq<Wire>, k: usize) -> Seq<bool> {
    gather_inputs(wires, k, wires.len() as int, falses(n.nodes@[k as int].spec_in_width() as nat))
}

/// Every wire of `b` fed by part `k` holds its share of `o`.
pub open spec fn feeds(b: NativeChip, k: usize, o: Seq<bool>) -> bool {
    forall|i: int|
        0 <= i < b.wires@.len() && (#[trigger] b.wires@[i]).from == Source::Node(k) ==> pending(
            b.wires@[i].edge,
        ) == o.subrange(b.wires@[i].edge.in_range().start as int, b.wires@[i].edge.in_range().end + 1)
}

/// When part `k` of `n` is a NAND gate, the wires it feeds in `b` hold the negated
/// conjunction of the two bits that the wires of `b` hand it.
pub open spec fn nand_part_ok(n: NativeChip, b: NativeChip, k: usize) -> bool {
    n.nodes@[k as int] is Nand ==> {
        let i = part_input(n, b.wires@, k);
        feeds(b, k, seq![!(i[0] && i[1])])
    }
}

proof fn lemma_gather_same(w1: Seq<Wire>, w2: Seq<Wire>, k: usize, m: int, base: Seq<bool>)
    requires
        w1.len() == w2.len(),
        0 <= m <= w1.len(),
        forall|i: int|
            0 <= i < m ==> (#[trigger] w1[i]).to == w2[i].to && w1[i].edge.out_range()
                == w2[i].edge.out_range() && (w1[i].to == Sink::Node(k) ==> wire_value(w1[i])
                == wire_value(w2[i])),
    ensures
        gather_inputs(w1, k, m, base) == gather_inputs(w2, k, m, base),
    decreases m,
{
    if m > 0 {
        lemma_gather_same(w1, w2, k, m - 1, base);
        assert(w1[m - 1].to == w2[m - 1].to);
    }
}

/// Evaluating part `k` (at `pos_k` in `order`) leaves unchanged the input of a part
/// `order[pos]` that runs no later than it.
proof fn lemma_step_frame(orig: NativeChip, cur: NativeChip, next: NativeChip, k: usize, pos_k: int, pos: int)
    requires
        cur.wf(),
        cur.order@ == orig.order@,
        0 <= pos <= pos_k < orig.order@.len(),
        orig.order@[pos_k] == k,
        cur.nodes@.len() == orig.nodes@.len(),
        Chip::Native(cur).latched_same(Chip::Native(next)),
        forall|i: int|
            0 <= i < next.wires@.len() && (#[trigger] next.wires@[i]).from != Source::Node(k)
                ==> next.wires@[i] == cur.wires@[i],
    ensures
        part_input(orig, next.wires@, orig.order@[pos]) == part_input(orig, cur.wires@, orig.order@[pos]),
{
    let kp = orig.order@[pos];
    assert forall|i: int|
        0 <= i < next.wires@.len() implies (#[trigger] next.wires@[i]).to == cur.wires@[i].to
        && next.wires@[i].edge.out_range() == cur.wires@[i].edge.out_range() && (next.wires@[i].to
        == Sink::Node(kp) ==> wire_value(next.wires@[i]) == wire_value(cur.wires@[i])) by {
        assert(cur.wires@[i].edge.same_latched(next.wires@[i].edge));
        if next.wires@[i].from == Source::Node(k) && next.wires@[i].to == Sink::Node(kp) {
            if cur.wires@[i].edge is Combinatorial {
                assert(comb_link(cur.wires@[i], k, kp));
                let (p, q) = choose|p: int, q: int|
                    0 <= p < q < cur.order@.len() && cur.order@[p] == k && cur.order@[q] == kp;
                assert(cur.order@[p] == cur.order@[pos_k]);
                assert(cur.order@[q] == cur.order@[pos]);
            }
        }
    }
    lemma_gather_same(
        next.wires@,
        cur.wires@,
        kp,
        next.wires@.len() as int,
        falses(orig.nodes@[kp as int].spec_in_width() as nat),
    );
}

/// The bits an evaluation last handed to the wire: a plain wire's buffer, a register's
/// waiting value.
pub open spec fn pending(e: ConnEdge) -> Seq<bool> {
    match e {
        ConnEdge::Combinatorial { buf, .. } => buf@,
        ConnEdge::Sequential { waiting, .. } => waiting@,
    }
}

/// A wire fed by the chip's own inputs holds the bits of `inputs` it selects; one fed by
/// a literal holds that literal in every bit.
pub open spec fn boundary_fed(w: Wire, inputs: Seq<bool>) -> bool {
    match w.from {
        Source::Input => pending(w.edge) == inputs.subrange(
            w.edge.in_range().start as int,
            w.edge.in_range().end + 1,
        ),
        Source::Const(b) => pending(w.edge) == Seq::new(w.edge.width() as nat, |_i: int| b),
        Source::Node(_) => true,
    }
}

impl ConnEdge {
    pub fn get_in_range(&self) -> (r: BusRange)
        ensures
            r == self.in_range(),
    {
        match self {
            ConnEdge::Combinatorial { in_range, .. } => *in_range,
            ConnEdge::Sequential { in_range, .. } => *in_range,
        }
    }

    pub fn get_out_range(&self) -> (r: BusRange)
        ensures
            r == self.out_range(),
    {
        match self {
            ConnEdge::Combinatorial { out_range, .. } => *out_range,
            ConnEdge::Sequential { out_range, .. } => *out_range,
        }
    }

    /// Hands `bits` to the wire in an evaluation: a plain wire shows them at once, a
    /// register keeps them for the next clock.
    pub fn store(&mut self, bits: Vec<bool>)
        requires
            old(self).lens_ok(),
            bits@.len() == old(self).width(),
        ensures
            final(self).lens_ok(),
            old(self).same_latched(*final(self)),
            match *final(self) {
                ConnEdge::Combinatorial { buf, .. } => buf@ == bits@,
                ConnEdge::Sequential { waiting, .. } => waiting@ == bits@,
            },
    {
        match self {
            ConnEdge::Combinatorial { buf, .. } => {
                *buf = bits;
            },
            ConnEdge::Sequential { waiting, .. } => {
                *waiting = bits;
            },
        }
    }

    /// A register latches its waiting value; a plain wire is left as it is.
    pub fn latch(&mut self)
        requires
            old(self).lens_ok(),
        ensures
            final(self).lens_ok(),
            old(self).clocked_to(*final(self)),
    {
        match self {
            ConnEdge::Combinatorial { .. } => {},
            ConnEdge::Sequential { waiting, buf, .. } => {
                *buf = copy_bits(waiting);
            },
        }
    }

    /// An independent copy of the wire's ranges and values.
    pub fn copy(&self) -> (r: ConnEdge)
        ensures
            r.in_range() == self.in_range(),
            r.out_range() == self.out_range(),
            r.visible() == self.visible(),
            r.same_latched(*self),
            self.same_as(r),
            self.lens_ok() ==> r.lens_ok(),
    {
        match self {
            ConnEdge::Combinatorial { in_range, out_range, buf } => ConnEdge::Combinatorial {
                in_range: *in_range,
                out_range: *out_range,
                buf: copy_bits(buf),
            },
            ConnEdge::Sequential { in_range, out_range, waiting, buf } => ConnEdge::Sequential {
                in_range: *in_range,
                out_range: *out_range,
                waiting: copy_bits(waiting),
                buf: copy_bits(buf),
            },
        }
    }
}

pub fn copy_bits(v: &Vec<bool>) -> (out: Vec<bool>)
    ensures
        out@ == v@,
{
    let mut out: Vec<bool> = Vec::new();
    let mut i: usize = 0;
    while i < v.len()
        invariant
            i <= v@.len(),
            out@ == v@.subrange(0, i as int),
        decreases v@.len() - i,
    {
        out.push(v[i]);
        i += 1;
        assert(out@ =~= v@.subrange(0, i as int));
    }
    assert(out@ =~= v@);
    out
}

/// The bits that wire `w` hands to its consumer.
pub fn read_wire(w: &Wire) -> (out: Vec<bool>)
    requires
        w.edge.lens_ok(),
    ensures
        out@ == wire_value(*w),
        out@.len() == w.edge.width(),
{
    match w.from {
        Source::Const(b) => {
            let r = w.edge.get_in_range();
            fill_bits(b, (r.end - r.start) as usize + 1)
        },
        _ => match &w.edge {
            ConnEdge::Combinatorial { buf, .. } => copy_bits(buf),
            ConnEdge::Sequential { buf, .. } => copy_bits(buf),
        },
    }
}

proof fn lemma_latched_refl(c: Chip)
    ensures
        c.latched_same(c),
    decreases c.depth(),
{
    if let Chip::Native(n) = c {
        assert forall|k: int|
            0 <= k < n.nodes@.len() && (#[trigger] n.nodes@[k]).depth() < n.depth@ implies n.nodes@[k].latched_same(
            n.nodes@[k],
        ) by {
            lemma_latched_refl(n.nodes@[k]);
        }
    }
}

/// Registers survive any run of evaluations: if each evaluation keeps the latched values
/// (as `eval` promises), so does the whole run, and only a clock changes them.
pub proof fn lemma_latched_trans(a: Chip, b: Chip, c: Chip)
    requires
        a.latched_same(b),
        b.latched_same(c),
    ensures
        a.latched_same(c),
    decreases a.depth(),
{
    if let (Chip::Native(x), Chip::Native(y), Chip::Native(z)) = (a, b, c) {
        assert forall|k: int|
            0 <= k < x.nodes@.len() && (#[trigger] x.nodes@[k]).depth() < x.depth@ implies x.nodes@[k].latched_same(
            z.nodes@[k],
        ) by {
            assert(x.nodes@[k].latched_same(y.nodes@[k]));
            lemma_latched_trans(x.nodes@[k], y.nodes@[k], z.nodes@[k]);
        }
    }
}

impl Chip {
    /// The chip's pins: for a NAND gate `a`, `b` and `out`, for a composite chip those it
    /// was built with.
    pub fn interface(&self) -> (r: Interface)
        ensures
            self matches Chip::Native(n) ==> r.com_in@ == n.interface.com_in@ && r.com_out@
                == n.interface.com_out@ && r.seq_in@ == n.interface.seq_in@ && r.seq_out@
                == n.interface.seq_out@,
            self is Nand ==> r.com_in@.len() == 2 && r.com_out@.len() == 1 && r.seq_in@.len() == 0
                && r.seq_out@.len() == 0,
    {
        match self {
            Chip::Nand(g) => g.interface(),
            Chip::Native(n) => n.interface(),
        }
    }

    /// An independent copy, down to every buffer of every part.
    pub fn chip_clone(&self) -> (r: Chip)
        requires
            self.wf(),
        ensures
            r.wf(),
            self.latched_same(r),
            self.same_state(r),
        decreases self.depth(), 1nat,
    {
        match self {
            Chip::Nand(g) => Chip::Nand(*g),
            Chip::Native(n) => Chip::Native(n.chip_clone()),
        }
    }

    pub fn in_width(&self) -> (r: usize)
        ensures
            r == self.spec_in_width(),
    {
        match self {
            Chip::Nand(_) => 2,
            Chip::Native(n) => n.in_width,
        }
    }

    pub fn out_width(&self) -> (r: usize)
        ensures
            r == self.spec_out_width(),
    {
        match self {
            Chip::Nand(_) => 1,
            Chip::Native(n) => n.out_width,
        }
    }

    /// One combinatorial pass: the outputs for `inputs`. Latched register values, at
    /// every level, are left as they are.
    pub fn eval(&mut self, inputs: &[bool]) -> (r: Vec<bool>)
        requires
            old(self).wf(),
            inputs@.len() == old(self).spec_in_width(),
        ensures
            final(self).wf(),
            old(self).latched_same(*final(self)),
            r@.len() == old(self).spec_out_width(),
            (*old(self) matches Chip::Nand(_)) ==> r@ == seq![!(inputs@[0] && inputs@[1])],
            match (*old(self), *final(self)) {
                (Chip::Nand(_), Chip::Nand(_)) => r@ == seq![!(inputs@[0] && inputs@[1])],
                (Chip::Native(a), Chip::Native(b)) => {
                    &&& r@ == gather_outputs(b.wires@, b.wires@.len() as int, falses(a.out_width as nat))
                    &&& forall|i: int| 0 <= i < b.wires@.len() ==> boundary_fed(#[trigger] b.wires@[i], inputs@)
                    &&& forall|j: int|
                        0 <= j < a.order@.len() ==> #[trigger] nand_part_ok(a, b, a.order@[j])
                },
                _ => false,
            },
        decreases old(self).depth(), 2nat,
    {
        match self {
            Chip::Nand(g) => g.eval(inputs),
            Chip::Native(n) => n.eval(inputs),
        }
    }

    /// One clock edge: every register, at every level, latches its waiting value.
    pub fn clock(&mut self)
        requires
            old(self).wf(),
        ensures
            final(self).wf(),
            old(self).clocked_to(*final(self)),
        decreases old(self).depth(), 2nat,
    {
        match self {
            Chip::Nand(g) => g.clock(),
            Chip::Native(n) => n.clock(),
        }
    }
}

impl NativeChip {
    proof fn lemma_wire_update(self, o: NativeChip, i: int)
        requires
            self.wf(),
            0 <= i < self.wires@.len(),
            o.nodes == self.nodes,
            o.order == self.order,
            o.in_width == self.in_width,
            o.out_width == self.out_width,
            o.depth == self.depth,
            o.wires@ == self.wires@.update(i, o.wires@[i]),
            o.wires@[i].from == self.wires@[i].from,
            o.wires@[i].to == self.wires@[i].to,
            o.wires@[i].edge.lens_ok(),
            o.wires@[i].edge.in_range() == self.wires@[i].edge.in_range(),
            o.wires@[i].edge.out_range() == self.wires@[i].edge.out_range(),
            (o.wires@[i].edge is Combinatorial) == (self.wires@[i].edge is Combinatorial),
        ensures
            o.wf(),
    {
        assert forall|j: int| 0 <= j < o.wires@.len() implies o.wire_ok(#[trigger] o.wires@[j]) by {
            assert(self.wire_ok(self.wires@[j]));
        }
        assert forall|j: int, a: usize, b: usize|
            0 <= j < o.wires@.len() && #[trigger] comb_link(o.wires@[j], a, b) implies exists|p: int, q: int|
            0 <= p < q < o.order@.len() && o.order@[p] == a && o.order@[q] == b by {
            assert(comb_link(self.wires@[j], a, b));
        }
    }

    /// The chip's pins.
    pub fn interface(&self) -> (r: Interface)
        ensures
            r.com_in@ == self.interface.com_in@,
            r.com_out@ == self.interface.com_out@,
            r.seq_in@ == self.interface.seq_in@,
            r.seq_out@ == self.interface.seq_out@,
    {
        self.interface.copy()
    }

    /// An independent copy, down to every buffer of every part.
    pub fn chip_clone(&self) -> (r: NativeChip)
        requires
            self.wf(),
        ensures
            r.wf(),
            Chip::Native(*self).latched_same(Chip::Native(r)),
            Chip::Native(*self).same_state(Chip::Native(r)),
        decreases self.depth@, 0nat,
    {
        let mut nodes: Vec<Chip> = Vec::new();
        let mut k: usize = 0;
        while k < self.nodes.len()
            invariant
                self.wf(),
                k <= self.nodes@.len(),
                nodes@.len() == k,
                forall|q: int| 0 <= q < k ==> (#[trigger] nodes@[q]).wf() && self.nodes@[q].latched_same(nodes@[q])
                    && self.nodes@[q].same_state(nodes@[q]),
            decreases self.nodes@.len() - k,
        {
            assert(self.nodes@[k as int].depth() < self.depth@ && self.nodes@[k as int].wf());
            nodes.push(self.nodes[k].chip_clone());
            k += 1;
        }
        let mut wires: Vec<Wire> = Vec::new();
        let mut i: usize = 0;
        while i < self.wires.len()
            invariant
                self.wf(),
                i <= self.wires@.len(),
                wires@.len() == i,
                forall|q: int| 0 <= q < i ==> (#[trigger] wires@[q]).from == self.wires@[q].from
                    && wires@[q].to == self.wires@[q].to && self.wires@[q].edge.same_latched(wires@[q].edge)
                    && self.wires@[q].edge.same_as(wires@[q].edge) && wires@[q].edge.lens_ok(),
            decreases self.wires@.len() - i,
        {
            assert(self.wire_ok(self.wires@[i as int]));
            let w = &self.wires[i];
            wires.push(Wire { from: w.from, to: w.to, edge: w.edge.copy() });
            i += 1;
        }
        let mut order: Vec<usize> = Vec::new();
        let mut j: usize = 0;
        while j < self.order.len()
            invariant
                j <= self.order@.len(),
                order@ == self.order@.subrange(0, j as int),
            decreases self.order@.len() - j,
        {
            order.push(self.order[j]);
            j += 1;
            assert(order@ =~= self.order@.subrange(0, j as int));
        }
        assert(order@ =~= self.order@);
        let r = NativeChip {
            nodes,
            wires,
            order,
            interface: self.interface.copy(),
            in_width: self.in_width,
            out_width: self.out_width,
            depth: self.depth,
        };
        proof {
            assert forall|q: int| 0 <= q < r.wires@.len() implies r.wire_ok(#[trigger] r.wires@[q]) by {
                assert(self.wire_ok(self.wires@[q]));
                if let Source::Node(j) = r.wires@[q].from {
                    assert(self.nodes@[j as int].latched_same(r.nodes@[j as int]));
                }
                if let Sink::Node(j) = r.wires@[q].to {
                    assert(self.nodes@[j as int].latched_same(r.nodes@[j as int]));
                }
            }
            assert forall|q: int| 0 <= q < r.nodes@.len() implies (#[trigger] r.nodes@[q]).depth() < r.depth@
                && r.nodes@[q].wf() by {
                assert(self.nodes@[q].latched_same(r.nodes@[q]));
                assert(self.nodes@[q].depth() < self.depth@);
            }
            assert forall|q: int| 0 <= q < self.nodes@.len() && (#[trigger] self.nodes@[q]).depth() < self.depth@
                implies self.nodes@[q].same_state(r.nodes@[q]) by {}
            assert forall|j: int, a: usize, b: usize|
                0 <= j < r.wires@.len() && #[trigger] comb_link(r.wires@[j], a, b) implies exists|p: int, q: int|
                0 <= p < q < r.order@.len() && r.order@[p] == a && r.order@[q] == b by {
                assert(self.wires@[j].edge.same_as(r.wires@[j].edge));
                assert(r.order@ == self.order@);
                assert(ordered(self.wires@, self.order@));
                assert(comb_link(self.wires@[j], a, b));
            }
        }
        r
    }

    /// Seeds the wires fed by the chip's own inputs and by literals.
    fn seed(&mut self, inputs: &[bool])
        requires
            old(self).wf(),
            inputs@.len() == old(self).in_width,
        ensures
            final(self).wf(),
            Chip::Native(*old(self)).latched_same(Chip::Native(*final(self))),
            final(self).interface == old(self).interface,
            forall|i: int| 0 <= i < final(self).wires@.len() ==> boundary_fed(#[trigger] final(self).wires@[i], inputs@),
    {
        let ghost orig = *self;
        proof {
            lemma_latched_refl(Chip::Native(orig));
        }
        let n = self.wires.len();
        let mut i: usize = 0;
        while i < n
            invariant
                n == self.wires@.len(),
                i <= n,
                inputs@.len() == self.in_width,
                self.wf(),
                Chip::Native(orig).latched_same(Chip::Native(*self)),
                self.interface == orig.interface,
                forall|q: int| 0 <= q < i ==> boundary_fed(#[trigger] self.wires@[q], inputs@),
            decreases n - i,
        {
            assert(self.wire_ok(self.wires@[i as int]));
            let from = self.wires[i].from;
            let r = self.wires[i].edge.get_in_range();
            let bits = match from {
                Source::Input => Some(slice_bits(inputs, r)),
                Source::Const(b) => Some(fill_bits(b, (r.end - r.start) as usize + 1)),
                Source::Node(_) => None,
            };
            if let Some(bits) = bits {
                let ghost before = *self;
                self.wires[i].edge.store(bits);
                proof {
                    before.lemma_wire_update(*self, i as int);
                    let a = Chip::Native(before);
                    let b = Chip::Native(*self);
                    lemma_latched_refl(a);
                    assert(a.latched_same(b));
                    lemma_latched_trans(Chip::Native(orig), a, b);
                }
            }
            i += 1;
        }
    }

    /// Evaluates the part `k`: gathers its inputs from the wires that feed it, and
    /// hands its outputs to the wires that it feeds.
    fn step(&mut self, k: usize)
        requires
            old(self).wf(),
            k < old(self).nodes@.len(),
        ensures
            final(self).nodes@ == old(self).nodes@.update(k as int, final(self).nodes@[k as int]),
            old(self).nodes@[k as int] is Nand ==> {
                let i = part_input(*old(self), old(self).wires@, k);
                feeds(*final(self), k, seq![!(i[0] && i[1])])
            },
            final(self).wf(),
            Chip::Native(*old(self)).latched_same(Chip::Native(*final(self))),
            final(self).interface == old(self).interface,
            final(self).wires@.len() == old(self).wires@.len(),
            forall|i: int|
                0 <= i < final(self).wires@.len() && (#[trigger] final(self).wires@[i]).from != Source::Node(k)
                    ==> final(self).wires@[i] == old(self).wires@[i],
        decreases old(self).depth@, 0nat,
    {
        let ghost orig = *self;
        proof {
            lemma_latched_refl(Chip::Native(orig));
        }
        let n = self.wires.len();
        let mut inp = fill_bits(false, self.nodes[k].in_width());
        let ghost base = inp@;
        assert(base =~= falses(orig.nodes@[k as int].spec_in_width() as nat));
        let mut i: usize = 0;
        while i < n
            invariant
                n == self.wires@.len(),
                i <= n,
                k < self.nodes@.len(),
                *self == orig,
                self.wf(),
                inp@.len() == self.nodes@[k as int].spec_in_width(),
                base == falses(orig.nodes@[k as int].spec_in_width() as nat),
                inp@ == gather_inputs(self.wires@, k, i as int, base),
            decreases n - i,
        {
            assert(self.wire_ok(self.wires@[i as int]));
            if let Sink::Node(d) = self.wires[i].to {
                if d == k {
                    let bits = read_wire(&self.wires[i]);
                    let r = self.wires[i].edge.get_out_range();
                    write_bits(&mut inp, r, &bits);
                }
            }
            i += 1;
        }
        assert(self.nodes@[k as int].depth() < self.depth@ && self.nodes@[k as int].wf());
        let ghost before = *self;
        let out = self.nodes[k].eval(inp.as_slice());
        proof {
            let nk = self.nodes@[k as int];
            assert(self.nodes@ == before.nodes@.update(k as int, nk));
            assert forall|j: int| 0 <= j < self.wires@.len() implies self.wire_ok(#[trigger] self.wires@[j]) by {
                assert(before.wire_ok(before.wires@[j]));
            }
            assert forall|q: int| 0 <= q < self.nodes@.len() implies (#[trigger] self.nodes@[q]).depth() < self.depth@
                && self.nodes@[q].wf() by {
                assert(before.nodes@[q].depth() < before.depth@ && before.nodes@[q].wf());
            }
            assert forall|q: int| 0 <= q < self.nodes@.len() && (#[trigger] before.nodes@[q]).depth() < before.depth@
                implies before.nodes@[q].latched_same(self.nodes@[q]) by {
                lemma_latched_refl(before.nodes@[q]);
            }
            assert(Chip::Native(before).latched_same(Chip::Native(*self)));
            lemma_latched_trans(Chip::Native(orig), Chip::Native(before), Chip::Native(*self));
        }
        let ghost mid = *self;
        let mut i: usize = 0;
        while i < n
            invariant
                n == self.wires@.len(),
                i <= n,
                k < self.nodes@.len(),
                self.nodes == mid.nodes,
                forall|q: int|
                    0 <= q < i && (#[trigger] self.wires@[q]).from == Source::Node(k) ==> pending(
                        self.wires@[q].edge,
                    ) == out@.subrange(
                        self.wires@[q].edge.in_range().start as int,
                        self.wires@[q].edge.in_range().end + 1,
                    ),
                self.wf(),
                out@.len() == self.nodes@[k as int].spec_out_width(),
                Chip::Native(orig).latched_same(Chip::Native(*self)),
                self.interface == orig.interface,
                forall|q: int|
                    0 <= q < self.wires@.len() && (#[trigger] self.wires@[q]).from != Source::Node(k)
                        ==> self.wires@[q] == orig.wires@[q],
            decreases n - i,
        {
            assert(self.wire_ok(self.wires@[i as int]));
            if let Source::Node(s) = self.wires[i].from {
                if s == k {
                    let r = self.wires[i].edge.get_in_range();
                    let bits = slice_bits(out.as_slice(), r);
                    let ghost before = *self;
                    self.wires[i].edge.store(bits);
                    proof {
                        before.lemma_wire_update(*self, i as int);
                        let a = Chip::Native(before);
                        let b = Chip::Native(*self);
                        lemma_latched_refl(a);
                        assert(a.latched_same(b));
                        lemma_latched_trans(Chip::Native(orig), a, b);
                    }
                }
            }
            i += 1;
        }
    }

    /// One combinatorial pass: seeds the input wires, evaluates the parts in order,
    /// and gathers the outputs. Latched register values are left as they are.
    pub fn eval(&mut self, inputs: &[bool]) -> (r: Vec<bool>)
        requires
            old(self).wf(),
            inputs@.len() == old(self).in_width,
        ensures
            final(self).wf(),
            Chip::Native(*old(self)).latched_same(Chip::Native(*final(self))),
            final(self).interface == old(self).interface,
            r@.len() == old(self).out_width,
            r@ == gather_outputs(
                final(self).wires@,
                final(self).wires@.len() as int,
                falses(old(self).out_width as nat),
            ),
            forall|i: int| 0 <= i < final(self).wires@.len() ==> boundary_fed(#[trigger] final(self).wires@[i], inputs@),
            forall|j: int|
                0 <= j < old(self).order@.len() ==> #[trigger] nand_part_ok(*old(self), *final(self), old(self).order@[j]),
        decreases old(self).depth@, 1nat,
    {
        let ghost orig = *self;
        self.seed(inputs);
        let m = self.order.len();
        let mut j: usize = 0;
        while j < m
            invariant
                m == self.order@.len(),
                j <= m,
                self.wf(),
                self.depth == orig.depth,
                self.depth@ == old(self).depth@,
                Chip::Native(orig).latched_same(Chip::Native(*self)),
                self.interface == orig.interface,
                forall|q: int| 0 <= q < self.wires@.len() ==> boundary_fed(#[trigger] self.wires@[q], inputs@),
                self.order@ == orig.order@,
                orig.wf(),
                orig == *old(self),
                forall|p: int| 0 <= p < j ==> #[trigger] nand_part_ok(orig, *self, orig.order@[p]),
            decreases m - j,
        {
            let k = self.order[j];
            let ghost before = *self;
            assert(self.depth@ == old(self).depth@);
            self.step(k);
            proof {
                assert(Chip::Native(orig).latched_same(Chip::Native(before)));
                assert(orig.nodes@[k as int].depth() < orig.depth@);
                assert(orig.nodes@[k as int].latched_same(before.nodes@[k as int]));
                lemma_step_frame(orig, before, *self, k, j as int, j as int);
                assert(part_input(orig, before.wires@, k) == part_input(before, before.wires@, k));
                assert(nand_part_ok(orig, *self, k));
                assert forall|p: int| 0 <= p < j + 1 implies #[trigger] nand_part_ok(orig, *self, orig.order@[p]) by {
                    if p < j {
                        let kp = orig.order@[p];
                        assert(nand_part_ok(orig, before, kp));
                        assert(kp != k);
                        lemma_step_frame(orig, before, *self, k, j as int, p);
                        assert forall|i: int|
                            0 <= i < self.wires@.len() && (#[trigger] self.wires@[i]).from == Source::Node(kp)
                            implies self.wires@[i] == before.wires@[i] by {}
                    }
                }
                lemma_latched_trans(Chip::Native(orig), Chip::Native(before), Chip::Native(*self));
                assert forall|q: int| 0 <= q < self.wires@.len() implies boundary_fed(#[trigger] self.wires@[q], inputs@) by {
                    assert(boundary_fed(before.wires@[q], inputs@));
                }
            }
            j += 1;
        }
        let mut res = fill_bits(false, self.out_width);
        let ghost base = res@;
        assert(base =~= falses(orig.out_width as nat));
        let n = self.wires.len();
        let mut i: usize = 0;
        while i < n
            invariant
                n == self.wires@.len(),
                i <= n,
                self.wf(),
                self.out_width == orig.out_width,
                base == falses(orig.out_width as nat),
                res@.len() == self.out_width,
                res@ == gather_outputs(self.wires@, i as int, base),
                forall|q: int| 0 <= q < self.wires@.len() ==> boundary_fed(#[trigger] self.wires@[q], inputs@),
            decreases n - i,
        {
            assert(self.wire_ok(self.wires@[i as int]));
            if let Sink::Output = self.wires[i].to {
                let bits = read_wire(&self.wires[i]);
                let r = self.wires[i].edge.get_out_range();
                write_bits(&mut res, r, &bits);
            }
            i += 1;
        }
        res
    }

    /// One clock edge: every register latches the value that the last evaluation left
    /// waiting, then every part is clocked in turn.
    pub fn clock(&mut self)
        requires
            old(self).wf(),
        ensures
            final(self).wf(),
            Chip::Native(*old(self)).clocked_to(Chip::Native(*final(self))),
            final(self).interface == old(self).interface,
        decreases old(self).depth@, 1nat,
    {
        let ghost orig = *self;
        let n = self.wires.len();
        let mut i: usize = 0;
        while i < n
            invariant
                n == self.wires@.len(),
                n == orig.wires@.len(),
                i <= n,
                self.wf(),
                self.nodes == orig.nodes,
                self.order == orig.order,
                self.in_width == orig.in_width,
                self.out_width == orig.out_width,
                self.depth == orig.depth,
                self.depth@ == old(self).depth@,
                self.interface == orig.interface,
                forall|q: int| 0 <= q < i ==> (#[trigger] self.wires@[q]).from == orig.wires@[q].from
                    && self.wires@[q].to == orig.wires@[q].to && orig.wires@[q].edge.clocked_to(
                    self.wires@[q].edge,
                ),
                forall|q: int| i <= q < n ==> #[trigger] self.wires@[q] == orig.wires@[q],
            decreases n - i,
        {
            assert(self.wire_ok(self.wires@[i as int]));
            let ghost before = *self;
            self.wires[i].edge.latch();
            proof {
                before.lemma_wire_update(*self, i as int);
            }
            i += 1;
        }
        let m = self.nodes.len();
        let mut k: usize = 0;
        while k < m
            invariant
                m == self.nodes@.len(),
                m == orig.nodes@.len(),
                k <= m,
                self.wf(),
                self.wires@.len() == orig.wires@.len(),
                self.order == orig.order,
                self.in_width == orig.in_width,
                self.out_width == orig.out_width,
                self.depth == orig.depth,
                self.depth@ == old(self).depth@,
                self.interface == orig.interface,
                forall|q: int| 0 <= q < self.wires@.len() ==> (#[trigger] self.wires@[q]).from == orig.wires@[q].from
                    && self.wires@[q].to == orig.wires@[q].to && orig.wires@[q].edge.clocked_to(
                    self.wires@[q].edge,
                ),
                forall|q: int| 0 <= q < k ==> (#[trigger] orig.nodes@[q]).clocked_to(self.nodes@[q]),
                forall|q: int| k <= q < m ==> #[trigger] self.nodes@[q] == orig.nodes@[q],
            decreases m - k,
        {
            assert(self.nodes@[k as int].depth() < self.depth@ && self.nodes@[k as int].wf());
            let ghost before = *self;
            assert(self.nodes@[k as int].depth() < old(self).depth@);
            self.nodes[k].clock();
            proof {
                assert forall|j: int| 0 <= j < self.wires@.len() implies self.wire_ok(#[trigger] self.wires@[j]) by {
                    assert(before.wire_ok(before.wires@[j]));
                }
                assert forall|q: int| 0 <= q < self.nodes@.len() implies (#[trigger] self.nodes@[q]).depth() < self.depth@
                    && self.nodes@[q].wf() by {
                    assert(before.nodes@[q].depth() < before.depth@ && before.nodes@[q].wf());
                }
                assert forall|q: int| 0 <= q < k + 1 implies (#[trigger] orig.nodes@[q]).clocked_to(self.nodes@[q]) by {
                    if q < k {
                        assert(orig.nodes@[q].clocked_to(before.nodes@[q]));
                    }
                }
            }
            k += 1;
        }
        assert(orig.clocked_to(*self));
    }

}

proof fn lemma_latched_sym(a: Chip, b: Chip)
    requires
        a.wf(),
        a.latched_same(b),
    ensures
        b.latched_same(a),
    decreases a.depth(),
{
    if let (Chip::Native(x), Chip::Native(y)) = (a, b) {
        assert forall|k: int|
            0 <= k < y.nodes@.len() && (#[trigger] y.nodes@[k]).depth() < y.depth@ implies y.nodes@[k].latched_same(
            x.nodes@[k],
        ) by {
            assert(x.nodes@[k].latched_same(y.nodes@[k]));
            lemma_latched_sym(x.nodes@[k], y.nodes@[k]);
        }
    }
}

proof fn lemma_gather_outputs_same(w1: Seq<Wire>, w2: Seq<Wire>, m: int, base: Seq<bool>)
    requires
        w1.len() == w2.len(),
        0 <= m <= w1.len(),
        forall|i: int|
            0 <= i < m ==> (#[trigger] w1[i]).to == w2[i].to && w1[i].edge.out_range()
                == w2[i].edge.out_range() && (w1[i].to is Output ==> wire_value(w1[i]) == wire_value(
                w2[i],
            )),
    ensures
        gather_outputs(w1, m, base) == gather_outputs(w2, m, base),
    decreases m,
{
    if m > 0 {
        lemma_gather_outputs_same(w1, w2, m - 1, base);
        assert(w1[m - 1].to == w2[m - 1].to);
    }
}

pub open spec fn below(n: nat) -> Set<usize> {
    Set::new(|v: usize| (v as nat) < n)
}

proof fn lemma_below(n: nat)
    requires
        n <= usize::MAX + 1,
    ensures
        below(n).finite(),
        below(n).len() == n,
    decreases n,
{
    if n > 0 {
        lemma_below((n - 1) as nat);
        assert(below(n) =~= below((n - 1) as nat).insert((n - 1) as usize));
    } else {
        assert(below(0) =~= Set::<usize>::empty());
    }
}

/// A list of `n` distinct indices below `n` holds every index below `n`.
proof fn lemma_schedule_complete(order: Seq<usize>)
    requires
        order.no_duplicates(),
        forall|i: int| 0 <= i < order.len() ==> #[trigger] order[i] < order.len(),
        order.len() <= usize::MAX,
    ensures
        forall|k: usize| k < order.len() ==> #[trigger] order.contains(k),
{
    order.unique_seq_to_set();
    lemma_below(order.len());
    assert forall|v: usize| order.to_set().contains(v) implies below(order.len()).contains(v) by {
        let i = choose|i: int| 0 <= i < order.len() && order[i] == v;
    }
    vstd::set_lib::lemma_subset_equality(order.to_set(), below(order.len()));
    assert forall|k: usize| k < order.len() implies #[trigger] order.contains(k) by {
        assert(below(order.len()).contains(k));
        assert(order.to_set().contains(k));
    }
}

/// Every part of `n` is a NAND gate.
pub open spec fn all_nand(n: NativeChip) -> bool {
    forall|k: int| 0 <= k < n.nodes@.len() ==> #[trigger] n.nodes@[k] is Nand
}

/// What `eval` promises of a pass that turns `a` into `b` on inputs `x`.
pub open spec fn eval_facts(a: NativeChip, x: Seq<bool>, b: NativeChip) -> bool {
    &&& Chip::Native(a).latched_same(Chip::Native(b))
    &&& forall|i: int| 0 <= i < b.wires@.len() ==> boundary_fed(#[trigger] b.wires@[i], x)
    &&& forall|j: int| 0 <= j < a.order@.len() ==> #[trigger] nand_part_ok(a, b, a.order@[j])
}

/// The wires fed by the first `p` parts of the order carry the same values in `b1`
/// and `b2`.
pub open spec fn agree_upto(a: NativeChip, b1: NativeChip, b2: NativeChip, p: int) -> bool {
    forall|i: int, q: int|
        0 <= i < b1.wires@.len() && 0 <= q < p && #[trigger] b1.wires@[i].from == Source::Node(
            #[trigger] a.order@[q],
        ) ==> wire_value(b1.wires@[i]) == wire_value(b2.wires@[i])
}

proof fn lemma_agree(a1: NativeChip, a2: NativeChip, x: Seq<bool>, b1: NativeChip, b2: NativeChip, p: int)
    requires
        a1.wf(),
        all_nand(a1),
        Chip::Native(a1).latched_same(Chip::Native(a2)),
        Chip::Native(b1).latched_same(Chip::Native(b2)),
        eval_facts(a1, x, b1),
        eval_facts(a2, x, b2),
        0 <= p <= a1.order@.len(),
    ensures
        agree_upto(a1, b1, b2, p),
    decreases p,
{
    if p > 0 {
        lemma_agree(a1, a2, x, b1, b2, p - 1);
        let k = a1.order@[p - 1];
        assert(a1.order@[p - 1] < a1.nodes@.len());
        assert(a1.nodes@[k as int] is Nand);
        assert(a1.nodes@[k as int].latched_same(a2.nodes@[k as int]));
        assert(a2.order@[p - 1] == k);
        assert(nand_part_ok(a1, b1, a1.order@[p - 1]));
        assert(nand_part_ok(a2, b2, a2.order@[p - 1]));
        assert forall|i: int|
            0 <= i < b1.wires@.len() implies (#[trigger] b1.wires@[i]).to == b2.wires@[i].to
            && b1.wires@[i].edge.out_range() == b2.wires@[i].edge.out_range() && (b1.wires@[i].to
            == Sink::Node(k) ==> wire_value(b1.wires@[i]) == wire_value(b2.wires@[i])) by {
            assert(b1.wires@[i].edge.same_latched(b2.wires@[i].edge));
            assert(a1.wires@[i].edge.same_latched(b1.wires@[i].edge));
            assert(boundary_fed(b1.wires@[i], x) && boundary_fed(b2.wires@[i], x));
            if b1.wires@[i].to == Sink::Node(k) && b1.wires@[i].edge is Combinatorial {
                if let Source::Node(k2) = b1.wires@[i].from {
                    assert(comb_link(a1.wires@[i], k2, k));
                    let (pp, qq) = choose|pp: int, qq: int|
                        0 <= pp < qq < a1.order@.len() && a1.order@[pp] == k2 && a1.order@[qq] == k;
                    assert(a1.order@[qq] == a1.order@[p - 1]);
                    assert(b1.wires@[i].from == Source::Node(a1.order@[pp]));
                }
            }
        }
        lemma_gather_same(b1.wires@, b2.wires@, k, b1.wires@.len() as int, falses(2));
        assert(part_input(a1, b1.wires@, k) == part_input(a2, b2.wires@, k));
        assert forall|i: int, q: int|
            0 <= i < b1.wires@.len() && 0 <= q < p && #[trigger] b1.wires@[i].from == Source::Node(
                #[trigger] a1.order@[q],
            ) implies wire_value(b1.wires@[i]) == wire_value(b2.wires@[i]) by {
            assert(b1.wires@[i].edge.same_latched(b2.wires@[i].edge));
            if q == p - 1 {
                assert(b2.wires@[i].from == Source::Node(k));
            }
        }
    }
}

/// In a chip whose parts are NAND gates, what `eval` returns is fixed by the inputs and
/// the latched register values: two passes on the same inputs from chips that agree on
/// their registers return the same output. In particular, evaluating again without a
/// clock in between returns the same output.
pub proof fn lemma_nand_chip_output_determined(
    a1: NativeChip,
    a2: NativeChip,
    x: Seq<bool>,
    b1: NativeChip,
    b2: NativeChip,
)
    requires
        a1.wf(),
        a1.order@.len() <= usize::MAX,
        all_nand(a1),
        Chip::Native(a1).latched_same(Chip::Native(a2)),
        eval_facts(a1, x, b1),
        eval_facts(a2, x, b2),
    ensures
        gather_outputs(b1.wires@, b1.wires@.len() as int, falses(a1.out_width as nat))
            == gather_outputs(b2.wires@, b2.wires@.len() as int, falses(a2.out_width as nat)),
{
    lemma_latched_sym(Chip::Native(a1), Chip::Native(b1));
    lemma_latched_trans(Chip::Native(b1), Chip::Native(a1), Chip::Native(a2));
    lemma_latched_trans(Chip::Native(b1), Chip::Native(a2), Chip::Native(b2));
    lemma_agree(a1, a2, x, b1, b2, a1.order@.len() as int);
    assert forall|i: int| 0 <= i < a1.order@.len() implies #[trigger] a1.order@[i] < a1.order@.len() by {}
    lemma_schedule_complete(a1.order@);
    assert forall|i: int|
        0 <= i < b1.wires@.len() implies (#[trigger] b1.wires@[i]).to == b2.wires@[i].to
        && b1.wires@[i].edge.out_range() == b2.wires@[i].edge.out_range() && (b1.wires@[i].to is Output
        ==> wire_value(b1.wires@[i]) == wire_value(b2.wires@[i])) by {
        assert(b1.wires@[i].edge.same_latched(b2.wires@[i].edge));
        assert(a1.wires@[i].edge.same_latched(b1.wires@[i].edge));
        assert(boundary_fed(b1.wires@[i], x) && boundary_fed(b2.wires@[i], x));
        assert(a1.wire_ok(a1.wires@[i]));
        if let Source::Node(k) = b1.wires@[i].from {
            if b1.wires@[i].edge is Combinatorial {
                assert(a1.wire_ok(a1.wires@[i]));
                assert(a1.order@.contains(k));
                let q = choose|q: int| 0 <= q < a1.order@.len() && a1.order@[q] == k;
                assert(b1.wires@[i].from == Source::Node(a1.order@[q]));
            }
        }
    }
    lemma_gather_outputs_same(b1.wires@, b2.wires@, b1.wires@.len() as int, falses(a1.out_width as nat));
}

/// Evaluating a chip of NAND parts twice on the same inputs, with no clock in between,
/// returns the same output both times.
pub proof fn lemma_repeated_eval_same_output(
    c0: NativeChip,
    c1: NativeChip,
    c2: NativeChip,
    x: Seq<bool>,
)
    requires
        c0.wf(),
        c0.order@.len() <= usize::MAX,
        all_nand(c0),
        eval_facts(c0, x, c1),
        eval_facts(c1, x, c2),
    ensures
        gather_outputs(c1.wires@, c1.wires@.len() as int, falses(c0.out_width as nat))
            == gather_outputs(c2.wires@, c2.wires@.len() as int, falses(c1.out_width as nat)),
{
    lemma_nand_chip_output_determined(c0, c1, x, c1, c2);
}

} // verus!
