//! Stylus event reduction: per-axis updates fold into pointer state, and each
//! synchronization boundary emits a normalized pointer packet unless it would
//! repeat the one emitted before.

use vstd::prelude::*;
use crate::devices::{digitizer_translate, spec_digitizer_translate, Device};
use crate::wire::{push_be32_i32, spec_be32, spec_u32_of_i32};

verus! {

/// One recognized input event, as the reducer sees it.
#[derive(Clone, Copy, Debug)]
pub enum StylusEvent {
    /// Absolute X axis update.
    AbsX(i32),
    /// Absolute Y axis update.
    AbsY(i32),
    /// Absolute distance axis update.
    AbsDistance(i32),
    /// Pen tool key report; value 0 means the pen was lifted.
    BtnToolPen(i32),
    /// Synchronization boundary: commit the state.
    SynReport,
    /// Anything the reducer ignores.
    Other,
}

/// Stylus state between synchronization boundaries, and the packet last
/// emitted for duplicate suppression.
pub struct PointerState {
    pub x: i32,
    pub y: i32,
    pub d: i32,
    pub last_packet: Vec<u8>,
}

/// Wire form of a pointer packet: tag 2, then the three normalized values as
/// big-endian two's-complement 32-bit integers.
pub open spec fn spec_pointer_packet(nx: int, ny: int, nd: int) -> Seq<u8> {
    seq![2u8] + spec_be32(spec_u32_of_i32(nx)) + spec_be32(spec_u32_of_i32(ny)) + spec_be32(
        spec_u32_of_i32(nd),
    )
}

/// The pointer packet a device emits for raw stylus state `(x, y, d)`.
pub open spec fn spec_pointer_packet_for(dev: Device, x: int, y: int, d: int) -> Seq<u8> {
    let t = spec_digitizer_translate(dev, x, y, d);
    spec_pointer_packet(t.0, t.1, t.2)
}

/// State after one event over plain values `(x, y, d, last_packet)`, paired
/// with the packet the event emits, if any.
pub open spec fn spec_stylus_step(
    dev: Device,
    x: int,
    y: int,
    d: int,
    last: Seq<u8>,
    ev: StylusEvent,
) -> ((int, int, int, Seq<u8>), Option<Seq<u8>>) {
    match ev {
        StylusEvent::AbsX(v) => ((v as int, y, d, last), None),
        StylusEvent::AbsY(v) => ((x, v as int, d, last), None),
        StylusEvent::AbsDistance(v) => ((x, y, v as int, last), None),
        StylusEvent::BtnToolPen(v) => ((x, y, if v == 0 { 0 } else { d }, last), None),
        StylusEvent::SynReport => {
            let p = spec_pointer_packet_for(dev, x, y, d);
            if p == last {
                ((x, y, d, last), None)
            } else {
                ((x, y, d, p), Some(p))
            }
        },
        StylusEvent::Other => ((x, y, d, last), None),
    }
}

/// Byte-wise equality of two vectors.
fn bytes_eq(a: &Vec<u8>, b: &Vec<u8>) -> (r: bool)
    ensures
        r <==> a@ == b@,
{
    if a.len() != b.len() {
        return false;
    }
    let mut i: usize = 0;
    while i < a.len()
        invariant
            a@.len() == b@.len(),
            i <= a@.len(),
            forall|j: int| 0 <= j < i ==> a@[j] == b@[j],
        decreases a@.len() - i,
    {
        if a[i] != b[i] {
            return false;
        }
        i = i + 1;
    }
    assert(a@ =~= b@);
    true
}

/// An independent copy of a byte vector.
fn clone_bytes(v: &Vec<u8>) -> (r: Vec<u8>)
    ensures
        r@ == v@,
{
    let mut out: Vec<u8> = Vec::new();
    crate::delta::append_bytes(&mut out, v);
    assert(out@ =~= v@);
    out
}

impl PointerState {
    /// Fresh state: axes at zero, nothing emitted yet.
    pub fn new() -> (r: PointerState)
        ensures
            r.x == 0,
            r.y == 0,
            r.d == 0,
            r.last_packet@ == Seq::<u8>::empty(),
    {
        PointerState { x: 0, y: 0, d: 0, last_packet: Vec::new() }
    }

    /// Applies one event as `spec_stylus_step` describes and returns the
    /// packet to broadcast, if the event emits one.
    pub fn handle_event(&mut self, device: &Device, ev: StylusEvent) -> (r: Option<Vec<u8>>)
        requires
            device.wf(),
        ensures
            ({
                let (st, out) = spec_stylus_step(
                    *device,
                    old(self).x as int,
                    old(self).y as int,
                    old(self).d as int,
                    old(self).last_packet@,
                    ev,
                );
                &&& final(self).x as int == st.0
                &&& final(self).y as int == st.1
                &&& final(self).d as int == st.2
                &&& final(self).last_packet@ == st.3
                &&& match (r, out) {
                    (Some(v), Some(s)) => v@ == s,
                    (None, None) => true,
                    _ => false,
                }
            }),
    {
        match ev {
            StylusEvent::AbsX(v) => {
                self.x = v;
                None
            },
            StylusEvent::AbsY(v) => {
                self.y = v;
                None
            },
            StylusEvent::AbsDistance(v) => {
                self.d = v;
                None
            },
            StylusEvent::BtnToolPen(v) => {
                if v == 0 {
                    self.d = 0;
                }
                None
            },
            StylusEvent::Other => None,
            StylusEvent::SynReport => {
                let t = digitizer_translate(device, self.x, self.y, self.d);
                let mut packet: Vec<u8> = Vec::new();
                packet.push(2);
                push_be32_i32(&mut packet, t.0);
                push_be32_i32(&mut packet, t.1);
                push_be32_i32(&mut packet, t.2);
                assert(packet@ =~= spec_pointer_packet_for(
                    *device,
                    self.x as int,
                    self.y as int,
                    self.d as int,
                ));
                if bytes_eq(&packet, &self.last_packet) {
                    None
                } else {
                    let copy = clone_bytes(&packet);
                    self.last_packet = packet;
                    Some(copy)
                }
            },
        }
    }
}

/// Every state reached by a step, paired with all packets the event stream
/// emits, in order.
pub open spec fn spec_stylus_run(
    dev: Device,
    st: (int, int, int, Seq<u8>),
    evs: Seq<StylusEvent>,
) -> ((int, int, int, Seq<u8>), Seq<Seq<u8>>)
    decreases evs.len(),
{
    if evs.len() == 0 {
        (st, Seq::empty())
    } else {
        let (st1, out) = spec_stylus_step(dev, st.0, st.1, st.2, st.3, evs.first());
        let rest = spec_stylus_run(dev, st1, evs.drop_first());
        (
            rest.0,
            match out {
                Some(p) => seq![p] + rest.1,
                None => rest.1,
            },
        )
    }
}

/// No two consecutive emitted pointer packets are byte-identical: over any
/// event stream, each emitted packet differs from the packet emitted just
/// before it, and the first emitted packet differs from the stored one.
pub proof fn lemma_no_consecutive_duplicate_packets(
    dev: Device,
    st: (int, int, int, Seq<u8>),
    evs: Seq<StylusEvent>,
)
    ensures
        ({
            let (_, ps) = spec_stylus_run(dev, st, evs);
            &&& forall|i: int| 0 <= i < ps.len() - 1 ==> #[trigger] ps[i] != ps[i + 1]
            &&& ps.len() > 0 ==> ps[0] != st.3
        }),
    decreases evs.len(),
{
    if evs.len() > 0 {
        let (st1, out) = spec_stylus_step(dev, st.0, st.1, st.2, st.3, evs.first());
        let rest = spec_stylus_run(dev, st1, evs.drop_first());
        lemma_no_consecutive_duplicate_packets(dev, st1, evs.drop_first());
        match out {
            Some(p) => {
                assert(p != st.3);
                assert(st1.3 == p);
                let ps = seq![p] + rest.1;
                assert forall|i: int| 0 <= i < ps.len() - 1 implies #[trigger] ps[i] != ps[i + 1] by {
                    if i == 0 {
                        assert(ps[0] == p && ps[1] == rest.1[0]);
                    } else {
                        assert(ps[i] == rest.1[i - 1] && ps[i + 1] == rest.1[i]);
                    }
                }
            },
            None => {
                assert(st1.3 == st.3);
            },
        }
    }
}

/// Lifting the pen forces the stored distance to zero, and it stays zero
/// until the next distance update: no other event changes it.
pub proof fn lemma_pen_lift_forces_distance_zero(
    dev: Device,
    x: int,
    y: int,
    d: int,
    last: Seq<u8>,
    ev: StylusEvent,
)
    ensures
        spec_stylus_step(dev, x, y, d, last, StylusEvent::BtnToolPen(0)).0.2 == 0,
        !(ev is AbsDistance) ==> spec_stylus_step(dev, x, y, 0, last, ev).0.2 == 0,
{
}

} // verus!
