//! Byte-level run encoding of the difference between the last broadcast
//! frame and the freshly translated one, with the size threshold that decides
//! the full-image fallback.

use vstd::prelude::*;
use crate::wire::{push_be32, spec_be32};

verus! {

/// Serialized delta bytes beyond this size abandon the delta path for the
/// full-image fallback.
pub const DELTA_PNG_THRESHOLD: usize = 1200000;

/// One maximal run of differing bytes: replacement `data` starting at byte
/// `offset` of the RGBA frame.
pub struct ImageDelta {
    pub offset: u32,
    pub data: Vec<u8>,
}

/// Wire form of one run: big-endian offset, big-endian length, raw bytes.
pub open spec fn spec_serialize_run(r: (int, Seq<u8>)) -> Seq<u8> {
    spec_be32(r.0) + spec_be32(r.1.len() as int) + r.1
}

/// Wire form of a list of runs, in order.
pub open spec fn spec_serialize_runs(rs: Seq<(int, Seq<u8>)>) -> Seq<u8>
    decreases rs.len(),
{
    if rs.len() == 0 {
        Seq::empty()
    } else {
        spec_serialize_runs(rs.drop_last()) + spec_serialize_run(rs.last())
    }
}

/// Appending one run serializes after the runs before it.
pub proof fn lemma_serialize_runs_push(rs: Seq<(int, Seq<u8>)>, r: (int, Seq<u8>))
    ensures
        spec_serialize_runs(rs.push(r)) == spec_serialize_runs(rs) + spec_serialize_run(r),
{
    assert(rs.push(r).drop_last() =~= rs);
    assert(rs.push(r).last() == r);
}

impl ImageDelta {
    /// Serializes the run for the wire.
    pub fn serialize(&self) -> (r: Vec<u8>)
        requires
            self.data@.len() <= u32::MAX,
        ensures
            r@ == spec_serialize_run((self.offset as int, self.data@)),
    {
        let mut outbound: Vec<u8> = Vec::new();
        push_be32(&mut outbound, self.offset);
        push_be32(&mut outbound, self.data.len() as u32);
        append_bytes(&mut outbound, &self.data);
        assert(outbound@ =~= spec_serialize_run((self.offset as int, self.data@)));
        outbound
    }
}

/// Appends all of `src` to `dst`.
pub fn append_bytes(dst: &mut Vec<u8>, src: &Vec<u8>)
    ensures
        final(dst)@ == old(dst)@ + src@,
{
    let mut k: usize = 0;
    while k < src.len()
        invariant
            k <= src@.len(),
            dst@ == old(dst)@ + src@.take(k as int),
        decreases src@.len() - k,
    {
        dst.push(src[k]);
        assert(dst@ =~= old(dst)@ + src@.take(k + 1));
        k = k + 1;
    }
    assert(dst@ =~= old(dst)@ + src@);
}

/// The runs of `spec_mismatch_runs` still to come once the scan has reached
/// index `i` with `cur` as the currently open run.
pub open spec fn spec_runs_from(
    old_b: Seq<u8>,
    new_b: Seq<u8>,
    i: int,
    cur: Option<(int, Seq<u8>)>,
) -> Seq<(int, Seq<u8>)>
    decreases new_b.len() - i,
{
    if i >= new_b.len() {
        match cur {
            None => Seq::empty(),
            Some(r) => seq![r],
        }
    } else if old_b[i] == new_b[i] {
        match cur {
            None => spec_runs_from(old_b, new_b, i + 1, None),
            Some(r) => seq![r] + spec_runs_from(old_b, new_b, i + 1, None),
        }
    } else {
        match cur {
            None => spec_runs_from(old_b, new_b, i + 1, Some((i, seq![new_b[i]]))),
            Some(r) => spec_runs_from(old_b, new_b, i + 1, Some((r.0, r.1.push(new_b[i])))),
        }
    }
}

/// The maximal runs of byte positions where `new_b` differs from `old_b`,
/// in increasing offset order, each carrying its replacement bytes.
pub open spec fn spec_mismatch_runs(old_b: Seq<u8>, new_b: Seq<u8>) -> Seq<(int, Seq<u8>)> {
    spec_runs_from(old_b, new_b, 0, None)
}

/// First byte index past the run.
pub open spec fn spec_run_end(r: (int, Seq<u8>)) -> int {
    r.0 + r.1.len()
}

/// The delta path is abandoned: some run that closes before the end of the
/// frame pushes the accumulated serialization over the threshold.
pub open spec fn spec_delta_overflow(old_b: Seq<u8>, new_b: Seq<u8>) -> bool {
    let rs = spec_mismatch_runs(old_b, new_b);
    exists|j: int|
        0 <= j < rs.len() && spec_run_end(rs[j]) < old_b.len() && spec_serialize_runs(
            rs.take(j + 1),
        ).len() > DELTA_PNG_THRESHOLD
}

/// `buf` with one run's replacement bytes written at its offset.
pub open spec fn spec_apply_run(buf: Seq<u8>, r: (int, Seq<u8>)) -> Seq<u8> {
    Seq::new(
        buf.len(),
        |i: int|
            if r.0 <= i < r.0 + r.1.len() {
                r.1[i - r.0]
            } else {
                buf[i]
            },
    )
}

/// `buf` with every run applied, first to last.
pub open spec fn spec_apply_runs(buf: Seq<u8>, rs: Seq<(int, Seq<u8>)>) -> Seq<u8>
    decreases rs.len(),
{
    if rs.len() == 0 {
        buf
    } else {
        spec_apply_runs(spec_apply_run(buf, rs.first()), rs.drop_first())
    }
}

proof fn lemma_runs_from_apply(
    ob: Seq<u8>,
    nb: Seq<u8>,
    i: int,
    cur: Option<(int, Seq<u8>)>,
    buf: Seq<u8>,
)
    requires
        ob.len() == nb.len(),
        0 <= i <= nb.len(),
        buf.len() == nb.len(),
        match cur {
            None => {
                &&& forall|k: int| 0 <= k < i ==> buf[k] == nb[k]
                &&& forall|k: int| i <= k < nb.len() ==> buf[k] == ob[k]
            },
            Some(r) => {
                &&& 0 <= r.0
                &&& r.0 + r.1.len() == i
                &&& r.1 == nb.subrange(r.0, i)
                &&& forall|k: int| 0 <= k < r.0 ==> buf[k] == nb[k]
                &&& forall|k: int| r.0 <= k < nb.len() ==> buf[k] == ob[k]
            },
        },
    ensures
        spec_apply_runs(buf, spec_runs_from(ob, nb, i, cur)) == nb,
    decreases nb.len() - i,
{
    if i >= nb.len() {
        match cur {
            None => {
                assert(buf =~= nb);
            },
            Some(r) => {
                let rest = seq![r].drop_first();
                assert(rest =~= Seq::<(int, Seq<u8>)>::empty());
                let buf2 = spec_apply_run(buf, r);
                assert(buf2 =~= nb) by {
                    assert forall|k: int| 0 <= k < nb.len() implies buf2[k] == nb[k] by {
                        if r.0 <= k < i {
                            assert(r.1[k - r.0] == nb.subrange(r.0, i)[k - r.0]);
                        }
                    }
                }
                assert(spec_apply_runs(buf, spec_runs_from(ob, nb, i, cur)) == spec_apply_runs(
                    buf2,
                    rest,
                ));
            },
        }
    } else if ob[i] == nb[i] {
        match cur {
            None => {
                lemma_runs_from_apply(ob, nb, i + 1, None, buf);
            },
            Some(r) => {
                let rest = spec_runs_from(ob, nb, i + 1, None);
                let whole = seq![r] + rest;
                assert(whole.first() == r);
                assert(whole.drop_first() =~= rest);
                let buf2 = spec_apply_run(buf, r);
                assert forall|k: int| 0 <= k < i + 1 implies buf2[k] == nb[k] by {
                    if r.0 <= k < i {
                        assert(r.1[k - r.0] == nb.subrange(r.0, i)[k - r.0]);
                    }
                }
                lemma_runs_from_apply(ob, nb, i + 1, None, buf2);
                assert(spec_apply_runs(buf, whole) == spec_apply_runs(buf2, whole.drop_first()));
            },
        }
    } else {
        match cur {
            None => {
                let r2 = (i, seq![nb[i]]);
                assert(r2.1 =~= nb.subrange(i, i + 1));
                lemma_runs_from_apply(ob, nb, i + 1, Some(r2), buf);
            },
            Some(r) => {
                let r2 = (r.0, r.1.push(nb[i]));
                assert(r2.1 =~= nb.subrange(r.0, i + 1));
                lemma_runs_from_apply(ob, nb, i + 1, Some(r2), buf);
            },
        }
    }
}

/// Applying every emitted run's bytes at its offset to a copy of the previous
/// baseline reconstructs the new frame exactly.
pub proof fn lemma_deltas_reconstruct(old_b: Seq<u8>, new_b: Seq<u8>)
    requires
        old_b.len() == new_b.len(),
    ensures
        spec_apply_runs(old_b, spec_mismatch_runs(old_b, new_b)) == new_b,
{
    lemma_runs_from_apply(old_b, new_b, 0, None, old_b);
}

proof fn lemma_runs_from_equal_tail(ob: Seq<u8>, nb: Seq<u8>, i: int)
    requires
        ob.len() == nb.len(),
        0 <= i <= nb.len(),
        forall|k: int| i <= k < nb.len() ==> ob[k] == nb[k],
    ensures
        spec_runs_from(ob, nb, i, None) == Seq::<(int, Seq<u8>)>::empty(),
    decreases nb.len() - i,
{
    if i < nb.len() {
        lemma_runs_from_equal_tail(ob, nb, i + 1);
    }
}

/// Frames are identical exactly when the encoder finds no runs.
pub proof fn lemma_no_runs_iff_identical(old_b: Seq<u8>, new_b: Seq<u8>)
    requires
        old_b.len() == new_b.len(),
    ensures
        spec_mismatch_runs(old_b, new_b).len() == 0 <==> old_b == new_b,
{
    if spec_mismatch_runs(old_b, new_b).len() == 0 {
        lemma_deltas_reconstruct(old_b, new_b);
        assert(spec_apply_runs(old_b, spec_mismatch_runs(old_b, new_b)) == old_b);
    }
    if old_b == new_b {
        lemma_runs_from_equal_tail(old_b, new_b, 0);
    }
}

proof fn lemma_runs_from_skip_equal(ob: Seq<u8>, nb: Seq<u8>, i: int, k: int)
    requires
        ob.len() == nb.len(),
        0 <= i <= k <= nb.len(),
        forall|t: int| i <= t < k ==> ob[t] == nb[t],
    ensures
        spec_runs_from(ob, nb, i, None) == spec_runs_from(ob, nb, k, None),
    decreases k - i,
{
    if i < k {
        lemma_runs_from_skip_equal(ob, nb, i + 1, k);
    }
}

/// A single differing byte at index `k` yields exactly one run: offset `k`,
/// length one, carrying the new byte.
pub proof fn lemma_single_difference(old_b: Seq<u8>, new_b: Seq<u8>, k: int)
    requires
        old_b.len() == new_b.len(),
        0 <= k < old_b.len(),
        old_b[k] != new_b[k],
        forall|t: int| 0 <= t < old_b.len() && t != k ==> old_b[t] == new_b[t],
    ensures
        spec_mismatch_runs(old_b, new_b) == seq![(k, seq![new_b[k]])],
{
    let r = (k, seq![new_b[k]]);
    lemma_runs_from_skip_equal(old_b, new_b, 0, k);
    assert(spec_runs_from(old_b, new_b, k, None) == spec_runs_from(old_b, new_b, k + 1, Some(r)));
    if k + 1 < new_b.len() {
        assert(spec_runs_from(old_b, new_b, k + 1, Some(r)) == seq![r] + spec_runs_from(
            old_b,
            new_b,
            k + 2,
            None,
        ));
        lemma_runs_from_equal_tail(old_b, new_b, k + 2);
        assert(seq![r] + Seq::<(int, Seq<u8>)>::empty() =~= seq![r]);
    }
}

/// The open run an encoder state carries, as the spec sees it.
pub open spec fn spec_cur(c: Option<ImageDelta>) -> Option<(int, Seq<u8>)> {
    match c {
        None => None,
        Some(d) => Some((d.offset as int, d.data@)),
    }
}

/// Walks both frames in lockstep and serializes every maximal differing run,
/// or reports that the accumulated runs crossed the threshold.
#[verifier::rlimit(100)]
pub fn encode_deltas(old_frame: &Vec<u8>, new_frame: &Vec<u8>) -> (r: Option<Vec<u8>>)
    requires
        old_frame@.len() == new_frame@.len(),
        old_frame@.len() <= 0xFFFF_FFFF,
    ensures
        match r {
            Some(d) => {
                &&& !spec_delta_overflow(old_frame@, new_frame@)
                &&& d@ == spec_serialize_runs(spec_mismatch_runs(old_frame@, new_frame@))
                &&& d@.len() <= DELTA_PNG_THRESHOLD + 8 + old_frame@.len()
            },
            None => spec_delta_overflow(old_frame@, new_frame@),
        },
{
    let ghost ob = old_frame@;
    let ghost nb = new_frame@;
    let ghost rs = spec_mismatch_runs(ob, nb);
    let n = old_frame.len();
    let mut deltas: Vec<u8> = Vec::new();
    let mut current: Option<ImageDelta> = None;
    let ghost mut closed: Seq<(int, Seq<u8>)> = Seq::empty();
    let mut i: usize = 0;
    proof {
        assert(rs =~= closed + spec_runs_from(ob, nb, 0, None));
    }
    while i < n
        invariant
            ob == old_frame@,
            nb == new_frame@,
            ob.len() == n,
            nb.len() == n,
            n <= 0xFFFF_FFFF,
            i <= n,
            rs == spec_mismatch_runs(ob, nb),
            rs == closed + spec_runs_from(ob, nb, i as int, spec_cur(current)),
            deltas@ == spec_serialize_runs(closed),
            deltas@.len() <= DELTA_PNG_THRESHOLD,
            forall|j: int|
                0 <= j < closed.len() ==> spec_run_end(#[trigger] closed[j]) < n
                    && spec_serialize_runs(closed.take(j + 1)).len() <= DELTA_PNG_THRESHOLD,
            match current {
                Some(d) => d.offset + d.data@.len() == i && d.data@.len() >= 1,
                None => true,
            },
        decreases n - i,
    {
        let ghost cur_g = spec_cur(current);
        let o = old_frame[i];
        let w = new_frame[i];
        if o == w {
            match current {
                None => {
                    proof {
                        assert(spec_runs_from(ob, nb, i as int, None) == spec_runs_from(
                            ob,
                            nb,
                            i + 1,
                            None,
                        ));
                    }
                },
                Some(d) => {
                    let ghost rg = (d.offset as int, d.data@);
                    let ghost prev = closed;
                    let ser = d.serialize();
                    append_bytes(&mut deltas, &ser);
                    current = None;
                    proof {
                        assert(spec_runs_from(ob, nb, i as int, Some(rg)) == seq![rg]
                            + spec_runs_from(ob, nb, i + 1, None));
                        lemma_serialize_runs_push(prev, rg);
                        assert(prev + (seq![rg] + spec_runs_from(ob, nb, i + 1, None))
                            =~= prev.push(rg) + spec_runs_from(ob, nb, i + 1, None));
                        closed = prev.push(rg);
                    }
                    if deltas.len() > DELTA_PNG_THRESHOLD {
                        proof {
                            let j = closed.len() - 1;
                            assert(rs.take(j + 1) =~= closed);
                            assert(rs[j] == closed[j]);
                            assert(spec_run_end(rs[j]) == i as int && i < n);
                            assert(spec_serialize_runs(rs.take(j + 1)).len()
                                > DELTA_PNG_THRESHOLD);
                            assert(spec_delta_overflow(ob, nb));
                        }
                        return None;
                    }
                    proof {
                        assert forall|j: int| 0 <= j < closed.len() implies spec_run_end(
                            #[trigger] closed[j],
                        ) < n && spec_serialize_runs(closed.take(j + 1)).len()
                            <= DELTA_PNG_THRESHOLD by {
                            if j < prev.len() {
                                assert(closed[j] == prev[j]);
                                assert(closed.take(j + 1) =~= prev.take(j + 1));
                            } else {
                                assert(closed[j] == rg);
                                assert(closed.take(j + 1) =~= closed);
                            }
                        }
                    }
                },
            }
        } else {
            match current {
                None => {
                    let mut one: Vec<u8> = Vec::new();
                    one.push(w);
                    current = Some(ImageDelta { offset: i as u32, data: one });
                    proof {
                        assert(spec_cur(current) == Some((i as int, seq![nb[i as int]])));
                        assert(spec_runs_from(ob, nb, i as int, None) == spec_runs_from(
                            ob,
                            nb,
                            i + 1,
                            Some((i as int, seq![nb[i as int]])),
                        ));
                    }
                },
                Some(mut d) => {
                    let ghost rg = (d.offset as int, d.data@);
                    d.data.push(w);
                    current = Some(d);
                    proof {
                        assert(spec_cur(current) == Some((rg.0, rg.1.push(nb[i as int]))));
                        assert(spec_runs_from(ob, nb, i as int, Some(rg)) == spec_runs_from(
                            ob,
                            nb,
                            i + 1,
                            Some((rg.0, rg.1.push(nb[i as int]))),
                        ));
                    }
                },
            }
        }
        i = i + 1;
    }
    match current {
        None => {
            proof {
                assert(spec_runs_from(ob, nb, n as int, None) =~= Seq::<(int, Seq<u8>)>::empty());
                assert(rs =~= closed);
                assert forall|j: int|
                    0 <= j < rs.len() implies !(spec_run_end(#[trigger] rs[j]) < ob.len()
                    && spec_serialize_runs(rs.take(j + 1)).len() > DELTA_PNG_THRESHOLD) by {
                    assert(rs[j] == closed[j]);
                    assert(rs.take(j + 1) =~= closed.take(j + 1));
                }
                assert(!spec_delta_overflow(ob, nb));
            }
            Some(deltas)
        },
        Some(d) => {
            let ghost rg = (d.offset as int, d.data@);
            let ser = d.serialize();
            append_bytes(&mut deltas, &ser);
            proof {
                assert(spec_runs_from(ob, nb, n as int, Some(rg)) == seq![rg]);
                assert(rs =~= closed.push(rg));
                lemma_serialize_runs_push(closed, rg);
                assert(spec_run_end(rg) == n);
                assert forall|j: int|
                    0 <= j < rs.len() implies !(spec_run_end(#[trigger] rs[j]) < ob.len()
                    && spec_serialize_runs(rs.take(j + 1)).len() > DELTA_PNG_THRESHOLD) by {
                    if j < closed.len() {
                        assert(rs[j] == closed[j]);
                        assert(rs.take(j + 1) =~= closed.take(j + 1));
                    } else {
                        assert(rs[j] == rg);
                    }
                }
                assert(!spec_delta_overflow(ob, nb));
            }
            Some(deltas)
        },
    }
}

} // verus!
