//! The NAL classifier and splitter: a byte-at-a-time state machine over
//! an Annex-B stream that locates start codes (also across chunk
//! boundaries), classifies each NAL as base layer, enhancement layer or
//! RPU, strips the enhancement-layer prefix, accumulates RPU payloads
//! until their terminator, runs the RPU codec, and routes everything to
//! the configured sinks. The specification is a fold of a single-byte
//! step function, so any chunking of the input gives the same outputs.
use vstd::prelude::*;

verus! {

use crate::DemuxError;
use crate::rpu::{spec_rpu_process, process_rpu_nal};

/// The category of the NAL currently being streamed.
#[derive(Clone, Copy, Debug, PartialEq, Eq, Structural)]
pub enum ChunkType {
    BLChunk,
    ELChunk,
    RPUChunk,
}

/// The NAL type carried in the upper six bits of the first byte after
/// a start code, mapped to its sink category.
pub open spec fn classify(ty: u8) -> ChunkType {
    if ty == 62 {
        ChunkType::RPUChunk
    } else if ty == 63 {
        ChunkType::ELChunk
    } else {
        ChunkType::BLChunk
    }
}

/// The three optional output sinks of one demux pass.
pub struct DoviWriter {
    pub bl_writer: Option<Vec<u8>>,
    pub el_writer: Option<Vec<u8>>,
    pub rpu_writer: Option<Vec<u8>>,
}

impl DoviWriter {
    /// Opens a sink set; each flag asks for the matching sink.
    pub fn new(bl_out: bool, el_out: bool, rpu_out: bool) -> (r: DoviWriter)
        ensures
            r.bl_writer is Some <==> bl_out,
            r.el_writer is Some <==> el_out,
            r.rpu_writer is Some <==> rpu_out,
            bl_out ==> r.bl_writer->0@ == Seq::<u8>::empty(),
            el_out ==> r.el_writer->0@ == Seq::<u8>::empty(),
            rpu_out ==> r.rpu_writer->0@ == Seq::<u8>::empty(),
    {
        DoviWriter {
            bl_writer: if bl_out {
                Some(Vec::new())
            } else {
                None
            },
            el_writer: if el_out {
                Some(Vec::new())
            } else {
                None
            },
            rpu_writer: if rpu_out {
                Some(Vec::new())
            } else {
                None
            },
        }
    }
}

/// The state of a demux pass as the step function sees it: the machine
/// registers and the sink contents.
pub struct DemuxView {
    pub mode: Option<u8>,
    pub skip_next: int,
    pub current_chunk_type: Option<ChunkType>,
    pub zeros: int,
    pub await_type: bool,
    pub current_rpu: Seq<u8>,
    pub failed: Option<DemuxError>,
    pub dropped_rpus: int,
    pub bl: Option<Seq<u8>>,
    pub el: Option<Seq<u8>>,
    pub rpu: Option<Seq<u8>>,
}

/// Appends bytes to a sink when it is present.
pub open spec fn sink_app(s: Option<Seq<u8>>, bytes: Seq<u8>) -> Option<Seq<u8>> {
    match s {
        Some(c) => Some(c + bytes),
        None => None,
    }
}

/// The four-byte Annex-B start code.
pub open spec fn start_code() -> Seq<u8> {
    seq![0u8, 0u8, 0u8, 1u8]
}

/// Emits a start code to the sink of `cat`; an RPU start code falls
/// back to the enhancement-layer sink when no RPU sink exists.
pub open spec fn sv_write_nal_header(v: DemuxView, cat: ChunkType) -> DemuxView {
    match cat {
        ChunkType::BLChunk => DemuxView { bl: sink_app(v.bl, start_code()), ..v },
        ChunkType::ELChunk => DemuxView { el: sink_app(v.el, start_code()), ..v },
        ChunkType::RPUChunk => {
            if v.rpu is Some {
                DemuxView { rpu: sink_app(v.rpu, start_code()), ..v }
            } else {
                DemuxView { el: sink_app(v.el, start_code()), ..v }
            }
        },
    }
}

/// A byte string without its first two bytes, or empty when shorter:
/// the NAL-header strip at the RPU sink boundary.
pub open spec fn drop2(s: Seq<u8>) -> Seq<u8> {
    if s.len() >= 2 {
        s.skip(2)
    } else {
        Seq::empty()
    }
}

/// Routes one complete RPU payload: untouched under no mode, through
/// the codec otherwise; the RPU sink takes it without its two
/// NAL-header bytes, the enhancement-layer fallback takes it whole.
pub open spec fn sv_route_rpu(v: DemuxView, payload: Seq<u8>) -> DemuxView {
    match v.mode {
        None => {
            if v.rpu is Some {
                DemuxView { rpu: sink_app(v.rpu, drop2(payload)), ..v }
            } else {
                DemuxView { el: sink_app(v.el, payload), ..v }
            }
        },
        Some(m) => match spec_rpu_process(payload, m) {
            Ok(out) => {
                if v.rpu is Some {
                    DemuxView { rpu: sink_app(v.rpu, drop2(out)), ..v }
                } else {
                    DemuxView { el: sink_app(v.el, out), ..v }
                }
            },
            Err(e) => DemuxView { failed: Some(e), ..v },
        },
    }
}

/// Finishes the RPU being accumulated: routed when it carries the
/// `0x80` terminator, discarded (and counted) otherwise.
pub open spec fn sv_complete_rpu(v: DemuxView) -> DemuxView {
    if v.current_rpu.len() == 0 {
        v
    } else if v.current_rpu.last() == 0x80 {
        let v2 = sv_route_rpu(v, v.current_rpu);
        DemuxView { current_rpu: Seq::empty(), ..v2 }
    } else {
        // the warning counter saturates at the machine word
        DemuxView {
            current_rpu: Seq::empty(),
            dropped_rpus: if v.dropped_rpus < u64::MAX {
                v.dropped_rpus + 1
            } else {
                v.dropped_rpus
            },
            ..v
        }
    }
}

/// Hands one payload byte to the current category: base-layer bytes
/// stream out, enhancement-layer bytes stream out after the two-byte
/// prefix is dropped, RPU bytes accumulate.
pub open spec fn sv_feed_payload(v: DemuxView, b: u8) -> DemuxView {
    match v.current_chunk_type {
        None => v,
        Some(ChunkType::BLChunk) => DemuxView { bl: sink_app(v.bl, seq![b]), ..v },
        Some(ChunkType::ELChunk) => {
            if v.skip_next > 0 {
                DemuxView { skip_next: v.skip_next - 1, ..v }
            } else {
                DemuxView { el: sink_app(v.el, seq![b]), ..v }
            }
        },
        Some(ChunkType::RPUChunk) => DemuxView { current_rpu: v.current_rpu.push(b), ..v },
    }
}

/// Scans one byte for the start code, holding back up to three zero
/// bytes that may begin one; everything else flows to the payload.
pub open spec fn sv_scan_byte(v: DemuxView, b: u8) -> DemuxView {
    if b == 0 {
        if v.zeros == 3 {
            sv_feed_payload(v, 0)
        } else {
            DemuxView { zeros: v.zeros + 1, ..v }
        }
    } else if b == 1 && v.zeros == 3 {
        let v2 = if v.current_chunk_type == Some(ChunkType::RPUChunk) {
            sv_complete_rpu(v)
        } else {
            v
        };
        DemuxView { zeros: 0, await_type: true, ..v2 }
    } else {
        let v2 = sv_flush_zeros(v, v.zeros);
        let v3 = sv_feed_payload(v2, b);
        DemuxView { zeros: 0, ..v3 }
    }
}

/// Flushes `z` held zero bytes to the payload.
pub open spec fn sv_flush_zeros(v: DemuxView, z: int) -> DemuxView
    decreases z,
{
    if z <= 0 {
        v
    } else {
        sv_flush_zeros(sv_feed_payload(v, 0), z - 1)
    }
}

/// One input byte: absorbed once the pass has failed; otherwise either
/// the type byte right after a start code, or a byte of the scan.
pub open spec fn d_step(v: DemuxView, b: u8) -> DemuxView {
    if v.failed is Some {
        v
    } else if v.await_type {
        let cat = classify(b >> 1);
        let v1 = sv_write_nal_header(v, cat);
        let v2 = DemuxView {
            current_chunk_type: Some(cat),
            await_type: false,
            skip_next: if cat == ChunkType::ELChunk {
                2
            } else {
                0
            },
            current_rpu: Seq::empty(),
            zeros: 0,
            ..v1
        };
        sv_scan_byte(v2, b)
    } else {
        sv_scan_byte(v, b)
    }
}

/// The fold of the step function over an input: the whole demux pass.
pub open spec fn d_run(v: DemuxView, input: Seq<u8>) -> DemuxView
    decreases input.len(),
{
    if input.len() == 0 {
        v
    } else {
        d_run(d_step(v, input[0]), input.skip(1))
    }
}

/// End of input: held zeros flush to the current payload and a pending
/// RPU completes or is dropped.
pub open spec fn d_finish(v: DemuxView) -> DemuxView {
    if v.failed is Some {
        v
    } else {
        let v2 = sv_flush_zeros(v, v.zeros);
        let v3 = DemuxView { zeros: 0, ..v2 };
        if v3.current_chunk_type == Some(ChunkType::RPUChunk) && !v3.await_type {
            sv_complete_rpu(v3)
        } else {
            v3
        }
    }
}

/// Folding a concatenation equals folding the pieces in turn: the
/// per-sink output of a demux pass does not depend on how the input is
/// cut into chunks.
pub proof fn lemma_run_append(v: DemuxView, a: Seq<u8>, b: Seq<u8>)
    ensures
        d_run(v, a + b) == d_run(d_run(v, a), b),
    decreases a.len(),
{
    if a.len() == 0 {
        assert(a + b =~= b);
    } else {
        assert((a + b)[0] == a[0]);
        assert((a + b).skip(1) =~= a.skip(1) + b);
        lemma_run_append(d_step(v, a[0]), a.skip(1), b);
    }
}

/// Chunk invariance: feeding the chunks of any cut one after the other
/// ends in the same state as feeding the whole input at once.
pub proof fn lemma_chunk_invariance(v: DemuxView, chunks: Seq<Seq<u8>>)
    ensures
        chunks.fold_left(v, |acc: DemuxView, c: Seq<u8>| d_run(acc, c)) == d_run(
            v,
            chunks.flatten(),
        ),
    decreases chunks.len(),
{
    if chunks.len() == 0 {
        assert(chunks.flatten() =~= Seq::<u8>::empty());
    } else {
        let last = chunks.last();
        let front = chunks.drop_last();
        lemma_chunk_invariance(v, front);
        chunks.lemma_flatten_and_flatten_alt_are_equivalent();
        front.lemma_flatten_and_flatten_alt_are_equivalent();
        assert(chunks.flatten_alt() == front.flatten_alt() + last);
        lemma_run_append(v, front.flatten(), last);
    }
}

/// The unfolding of the fold from the right, for chunk loops.
pub proof fn lemma_run_snoc(v: DemuxView, s: Seq<u8>, b: u8)
    ensures
        d_run(v, s.push(b)) == d_step(d_run(v, s), b),
{
    assert(s.push(b) =~= s + seq![b]);
    lemma_run_append(v, s, seq![b]);
    assert(d_run(d_run(v, s), seq![b]) == d_step(d_run(v, s), b)) by {
        let u = d_run(v, s);
        assert(seq![b].len() == 1);
        assert(seq![b][0] == b);
        assert(seq![b].skip(1) =~= Seq::<u8>::empty());
        assert(d_run(u, seq![b]) == d_run(d_step(u, b), seq![b].skip(1)));
        assert(d_run(d_step(u, b), Seq::<u8>::empty()) == d_step(u, b));
    }
}

/// The splitter state carried across chunks.
pub struct DoviReader {
    pub mode: Option<u8>,
    pub skip_next: usize,
    pub current_chunk_type: Option<ChunkType>,
    pub zeros: u8,
    pub await_type: bool,
    pub current_rpu: Vec<u8>,
    pub failed: Option<DemuxError>,
    pub dropped_rpus: u64,
}

/// The machine state a reader and a sink set make together.
pub open spec fn demux_view(r: DoviReader, w: DoviWriter) -> DemuxView {
    DemuxView {
        mode: r.mode,
        skip_next: r.skip_next as int,
        current_chunk_type: r.current_chunk_type,
        zeros: r.zeros as int,
        await_type: r.await_type,
        current_rpu: r.current_rpu@,
        failed: r.failed,
        dropped_rpus: r.dropped_rpus as int,
        bl: match w.bl_writer {
            Some(v) => Some(v@),
            None => None,
        },
        el: match w.el_writer {
            Some(v) => Some(v@),
            None => None,
        },
        rpu: match w.rpu_writer {
            Some(v) => Some(v@),
            None => None,
        },
    }
}

/// Register bounds the exec machine maintains.
pub open spec fn reader_wf(r: DoviReader) -> bool {
    r.zeros <= 3 && r.skip_next <= 2
}

impl DoviReader {
    /// A fresh splitter for one pass under the given conversion mode.
    pub fn new(mode: Option<u8>) -> (r: DoviReader)
        ensures
            reader_wf(r),
            r.mode == mode,
            r.skip_next == 0,
            r.current_chunk_type is None,
            r.zeros == 0,
            !r.await_type,
            r.current_rpu@ == Seq::<u8>::empty(),
            r.failed is None,
            r.dropped_rpus == 0,
    {
        let r = DoviReader {
            mode,
            skip_next: 0,
            current_chunk_type: None,
            zeros: 0,
            await_type: false,
            current_rpu: Vec::new(),
            failed: None,
            dropped_rpus: 0,
        };
        proof {
            assert(r.current_rpu@ =~= Seq::<u8>::empty());
        }
        r
    }
}


/// Appends `src[from..]` to a byte sink.
fn append_from(dst: &mut Vec<u8>, src: &[u8], from: usize)
    requires
        from <= src@.len(),
    ensures
        final(dst)@ == old(dst)@ + src@.skip(from as int),
{
    let ghost d0 = dst@;
    let mut i: usize = from;
    while i < src.len()
        invariant
            from <= i <= src@.len(),
            dst@ == d0 + src@.subrange(from as int, i as int),
        decreases src@.len() - i,
    {
        let b = src[i];
        dst.push(b);
        proof {
            assert(d0 + src@.subrange(from as int, i + 1) =~= (d0 + src@.subrange(
                from as int,
                i as int,
            )).push(b));
        }
        i += 1;
    }
    proof {
        assert(dst@ =~= d0 + src@.skip(from as int));
    }
}

impl DoviReader {
    /// Emits the start code of a newly classified NAL to its sink.
    pub fn write_nal_header(&self, writer: &mut DoviWriter, chunk_type: &ChunkType)
        ensures
            demux_view(*self, *final(writer)) == sv_write_nal_header(
                demux_view(*self, *old(writer)),
                *chunk_type,
            ),
    {
        let ghost v0 = demux_view(*self, *old(writer));
        match chunk_type {
            ChunkType::BLChunk => {
                match &mut writer.bl_writer {
                    Some(v) => {
                        v.push(0);
                        v.push(0);
                        v.push(0);
                        v.push(1);
                    },
                    None => {},
                }
            },
            ChunkType::ELChunk => {
                match &mut writer.el_writer {
                    Some(v) => {
                        v.push(0);
                        v.push(0);
                        v.push(0);
                        v.push(1);
                    },
                    None => {},
                }
            },
            ChunkType::RPUChunk => {
                if writer.rpu_writer.is_some() {
                    match &mut writer.rpu_writer {
                        Some(v) => {
                            v.push(0);
                            v.push(0);
                            v.push(0);
                            v.push(1);
                        },
                        None => {},
                    }
                } else {
                    match &mut writer.el_writer {
                        Some(v) => {
                            v.push(0);
                            v.push(0);
                            v.push(0);
                            v.push(1);
                        },
                        None => {},
                    }
                }
            },
        }
        proof {
            assert(forall|c: Seq<u8>| #![auto] c.push(0u8).push(0u8).push(0u8).push(1u8) =~= c
                + start_code());
        }
    }

    /// Streams one payload byte to the current category.
    fn feed_payload(&mut self, writer: &mut DoviWriter, b: u8)
        requires
            reader_wf(*old(self)),
        ensures
            reader_wf(*final(self)),
            demux_view(*final(self), *final(writer)) == sv_feed_payload(
                demux_view(*old(self), *old(writer)),
                b,
            ),
    {
        match self.current_chunk_type {
            None => {},
            Some(ChunkType::BLChunk) => {
                match &mut writer.bl_writer {
                    Some(v) => {
                        v.push(b);
                        proof {
                            assert(v@ =~= old(writer).bl_writer->0@ + seq![b]);
                        }
                    },
                    None => {},
                }
            },
            Some(ChunkType::ELChunk) => {
                if self.skip_next > 0 {
                    self.skip_next = self.skip_next - 1;
                } else {
                    match &mut writer.el_writer {
                        Some(v) => {
                            v.push(b);
                            proof {
                                assert(v@ =~= old(writer).el_writer->0@ + seq![b]);
                            }
                        },
                        None => {},
                    }
                }
            },
            Some(ChunkType::RPUChunk) => {
                self.current_rpu.push(b);
            },
        }
    }

    /// Finishes the RPU being accumulated: routed through the codec (or
    /// copied) when it carries the terminator, dropped otherwise.
    fn complete_rpu(&mut self, writer: &mut DoviWriter)
        requires
            reader_wf(*old(self)),
        ensures
            reader_wf(*final(self)),
            demux_view(*final(self), *final(writer)) == sv_complete_rpu(
                demux_view(*old(self), *old(writer)),
            ),
    {
        let len = self.current_rpu.len();
        if len == 0 {
            return ;
        }
        if self.current_rpu[len - 1] == 0x80 {
            match self.mode {
                None => {
                    if writer.rpu_writer.is_some() {
                        match &mut writer.rpu_writer {
                            Some(v) => {
                                if len >= 2 {
                                    append_from(v, self.current_rpu.as_slice(), 2);
                                }
                            },
                            None => {},
                        }
                    } else {
                        match &mut writer.el_writer {
                            Some(v) => {
                                append_from(v, self.current_rpu.as_slice(), 0);
                                proof {
                                    assert(self.current_rpu@.skip(0) =~= self.current_rpu@);
                                }
                            },
                            None => {},
                        }
                    }
                },
                Some(m) => {
                    match process_rpu_nal(self.current_rpu.as_slice(), m) {
                        Ok(out) => {
                            proof {
                                assert(out@.len() >= 2);
                            }
                            if writer.rpu_writer.is_some() {
                                match &mut writer.rpu_writer {
                                    Some(v) => {
                                        append_from(v, out.as_slice(), 2);
                                    },
                                    None => {},
                                }
                            } else {
                                match &mut writer.el_writer {
                                    Some(v) => {
                                        append_from(v, out.as_slice(), 0);
                                        proof {
                                            assert(out@.skip(0) =~= out@);
                                        }
                                    },
                                    None => {},
                                }
                            }
                        },
                        Err(e) => {
                            self.failed = Some(e);
                        },
                    }
                },
            }
            self.current_rpu = Vec::new();
        } else {
            self.current_rpu = Vec::new();
            if self.dropped_rpus < u64::MAX {
                self.dropped_rpus = self.dropped_rpus + 1;
            }
        }
        proof {
            assert(self.current_rpu@ =~= Seq::<u8>::empty());
        }
    }

    /// Flushes the held zero bytes to the payload.
    fn flush_zeros(&mut self, writer: &mut DoviWriter)
        requires
            reader_wf(*old(self)),
        ensures
            reader_wf(*final(self)),
            final(self).zeros == old(self).zeros,
            demux_view(*final(self), *final(writer)) == sv_flush_zeros(
                demux_view(*old(self), *old(writer)),
                old(self).zeros as int,
            ),
    {
        let z = self.zeros;
        let mut i: u8 = 0;
        while i < z
            invariant
                reader_wf(*self),
                i <= z,
                self.zeros == old(self).zeros == z,
                sv_flush_zeros(demux_view(*old(self), *old(writer)), z as int) == sv_flush_zeros(
                    demux_view(*self, *writer),
                    (z - i) as int,
                ),
            decreases z - i,
        {
            self.feed_payload(writer, 0);
            i += 1;
            proof {
                assert(self.zeros == z);
            }
        }
    }

    /// Scans one byte for the start code.
    fn scan_byte(&mut self, writer: &mut DoviWriter, b: u8)
        requires
            reader_wf(*old(self)),
        ensures
            reader_wf(*final(self)),
            demux_view(*final(self), *final(writer)) == sv_scan_byte(
                demux_view(*old(self), *old(writer)),
                b,
            ),
    {
        if b == 0 {
            if self.zeros == 3 {
                self.feed_payload(writer, 0);
            } else {
                self.zeros = self.zeros + 1;
            }
        } else if b == 1 && self.zeros == 3 {
            match self.current_chunk_type {
                Some(ChunkType::RPUChunk) => {
                    self.complete_rpu(writer);
                },
                _ => {},
            }
            self.zeros = 0;
            self.await_type = true;
        } else {
            self.flush_zeros(writer);
            self.feed_payload(writer, b);
            self.zeros = 0;
        }
    }

    /// Consumes one input byte of the pass.
    fn step_byte(&mut self, writer: &mut DoviWriter, b: u8)
        requires
            reader_wf(*old(self)),
        ensures
            reader_wf(*final(self)),
            demux_view(*final(self), *final(writer)) == d_step(
                demux_view(*old(self), *old(writer)),
                b,
            ),
    {
        if self.failed.is_some() {
            return ;
        }
        if self.await_type {
            let ty = b >> 1;
            let cat = if ty == 62 {
                ChunkType::RPUChunk
            } else if ty == 63 {
                ChunkType::ELChunk
            } else {
                ChunkType::BLChunk
            };
            self.write_nal_header(writer, &cat);
            self.current_chunk_type = Some(cat);
            self.await_type = false;
            self.skip_next = match cat {
                ChunkType::ELChunk => 2,
                _ => 0,
            };
            self.current_rpu = Vec::new();
            self.zeros = 0;
            proof {
                assert(self.current_rpu@ =~= Seq::<u8>::empty());
            }
            self.scan_byte(writer, b);
        } else {
            self.scan_byte(writer, b);
        }
    }

    /// Feeds one chunk of the input to the splitter: the state and the
    /// sinks afterwards are the fold of the step function over the
    /// chunk's bytes, so any chunking of the input gives the same
    /// per-sink output.
    pub fn process_chunk(&mut self, writer: &mut DoviWriter, chunk: &[u8])
        requires
            reader_wf(*old(self)),
        ensures
            reader_wf(*final(self)),
            demux_view(*final(self), *final(writer)) == d_run(
                demux_view(*old(self), *old(writer)),
                chunk@,
            ),
    {
        let ghost v0 = demux_view(*old(self), *old(writer));
        let mut i: usize = 0;
        proof {
            assert(chunk@.take(0) =~= Seq::<u8>::empty());
        }
        while i < chunk.len()
            invariant
                reader_wf(*self),
                i <= chunk@.len(),
                v0 == demux_view(*old(self), *old(writer)),
                demux_view(*self, *writer) == d_run(v0, chunk@.take(i as int)),
            decreases chunk@.len() - i,
        {
            let b = chunk[i];
            proof {
                lemma_run_snoc(v0, chunk@.take(i as int), b);
                assert(chunk@.take(i + 1) =~= chunk@.take(i as int).push(b));
            }
            self.step_byte(writer, b);
            i += 1;
        }
        proof {
            assert(chunk@.take(chunk@.len() as int) =~= chunk@);
        }
    }

    /// Ends the pass: held zero bytes flush to the current payload and
    /// a pending RPU completes or is dropped with a warning count.
    pub fn finish(&mut self, writer: &mut DoviWriter)
        requires
            reader_wf(*old(self)),
        ensures
            reader_wf(*final(self)),
            demux_view(*final(self), *final(writer)) == d_finish(
                demux_view(*old(self), *old(writer)),
            ),
    {
        if self.failed.is_some() {
            return ;
        }
        self.flush_zeros(writer);
        self.zeros = 0;
        if !self.await_type {
            match self.current_chunk_type {
                Some(ChunkType::RPUChunk) => {
                    self.complete_rpu(writer);
                },
                _ => {},
            }
        }
    }
}

} // verus!