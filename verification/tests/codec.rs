use dovi_tool::bits::{BitVecReader, BitVecWriter};
use dovi_tool::demux::{ChunkType, DoviReader, DoviWriter};
use dovi_tool::emulation::{
    add_start_code_emulation_prevention_3_byte, clear_start_code_emulation_prevention_3_byte,
};
use dovi_tool::muxer::Muxer;
use dovi_tool::{DemuxError, Format};

#[test]
fn exp_golomb_round_trip() {
    let mut w = BitVecWriter::new();
    w.write_ue(0);
    w.write_ue(1);
    w.write_ue(7);
    w.write_se(3);
    w.write_se(-2);
    w.write_n(0xAB, 8);
    let bytes = w.as_bytes();
    let mut r = BitVecReader::new(&bytes);
    assert_eq!(r.get_ue().unwrap(), 0);
    assert_eq!(r.get_ue().unwrap(), 1);
    assert_eq!(r.get_ue().unwrap(), 7);
    assert_eq!(r.get_se().unwrap(), 3);
    assert_eq!(r.get_se().unwrap(), -2);
    assert_eq!(r.get_n(8).unwrap(), 0xAB);
}

#[test]
fn ue_exact_encodings() {
    // ue(0) = "1", ue(1) = "010", ue(2) = "011"
    let mut w = BitVecWriter::new();
    w.write_ue(0);
    w.write_ue(1);
    w.write_ue(2);
    // bits: 1 010 011 -> 1010011 padded to 10100110
    assert_eq!(w.as_bytes(), vec![0b1010_0110]);
}

#[test]
fn reader_truncation() {
    let mut r = BitVecReader::new(&[0x80]);
    assert_eq!(r.get_n(8).unwrap(), 0x80);
    assert_eq!(r.get_n(1), Err(DemuxError::Truncated));
}

#[test]
fn emulation_prevention_insert_and_strip() {
    let mut buf = vec![0x00, 0x00, 0x01, 0x7E];
    add_start_code_emulation_prevention_3_byte(&mut buf);
    assert_eq!(buf, vec![0x00, 0x00, 0x03, 0x01, 0x7E]);
    let back = clear_start_code_emulation_prevention_3_byte(&buf);
    assert_eq!(back, vec![0x00, 0x00, 0x01, 0x7E]);
}

#[test]
fn emulation_prevention_round_trip_many() {
    let cases: Vec<Vec<u8>> = vec![
        vec![],
        vec![0x00],
        vec![0x00, 0x00],
        vec![0x00, 0x00, 0x00],
        vec![0x00, 0x00, 0x00, 0x00, 0x00],
        vec![0x00, 0x00, 0x03],
        vec![0x00, 0x00, 0x02, 0x00, 0x00, 0x01],
        vec![0xFF, 0x00, 0x00, 0x03, 0x04],
    ];
    for c in cases {
        let mut escaped = c.clone();
        add_start_code_emulation_prevention_3_byte(&mut escaped);
        assert_eq!(clear_start_code_emulation_prevention_3_byte(&escaped), c);
    }
}

#[test]
fn muxer_rejects_matroska() {
    let m = Muxer::new(
        Format::Matroska,
        String::from("bl"),
        String::from("el"),
        String::from("out"),
    );
    assert_eq!(m.process_input(None), Err(DemuxError::Unsupported));
    let m2 = Muxer::new(
        Format::Raw,
        String::from("bl"),
        String::from("el"),
        String::from("out"),
    );
    assert_eq!(m2.process_input(Some(2)), Ok(()));
}

#[test]
fn sinks_open_per_flag() {
    let w = DoviWriter::new(true, false, true);
    assert!(w.bl_writer.is_some());
    assert!(w.el_writer.is_none());
    assert!(w.rpu_writer.is_some());
    let r = DoviReader::new(Some(2));
    assert_eq!(r.mode, Some(2));
    assert_eq!(r.skip_next, 0);
    assert!(matches!(ChunkType::BLChunk, ChunkType::BLChunk));
}

fn run_demux(mode: Option<u8>, input: &[u8], chunk: usize) -> (Vec<u8>, Vec<u8>, Vec<u8>) {
    let mut r = DoviReader::new(mode);
    let mut w = DoviWriter::new(true, true, true);
    for c in input.chunks(chunk.max(1)) {
        r.process_chunk(&mut w, c);
    }
    r.finish(&mut w);
    assert!(r.failed.is_none());
    (
        w.bl_writer.unwrap(),
        w.el_writer.unwrap(),
        w.rpu_writer.unwrap(),
    )
}

#[test]
fn splitter_bl_and_rpu_copy_through() {
    // one base-layer NAL (type 0x40 >> 1 = 32), one RPU NAL (0x7C >> 1 = 62)
    let input = [
        0x00, 0x00, 0x00, 0x01, 0x40, 0x01, 0xAA, 0xBB, 0x00, 0x00, 0x00, 0x01, 0x7C, 0x01, 0x19,
        0x22, 0x80,
    ];
    let (bl, el, rpu) = run_demux(None, &input, input.len());
    assert_eq!(bl, vec![0x00, 0x00, 0x00, 0x01, 0x40, 0x01, 0xAA, 0xBB]);
    assert_eq!(el, Vec::<u8>::new());
    // start code, then the payload without its 7C 01 NAL-header bytes
    assert_eq!(rpu, vec![0x00, 0x00, 0x00, 0x01, 0x19, 0x22, 0x80]);
}

#[test]
fn splitter_el_prefix_stripped() {
    let input = [0x00, 0x00, 0x00, 0x01, 0x7E, 0x01, 0xCC, 0xDD];
    let (bl, el, _rpu) = run_demux(None, &input, input.len());
    assert_eq!(bl, Vec::<u8>::new());
    assert_eq!(el, vec![0x00, 0x00, 0x00, 0x01, 0xCC, 0xDD]);
}

#[test]
fn splitter_chunk_invariant() {
    let input = [
        0x00, 0x00, 0x00, 0x01, 0x40, 0x01, 0xAA, 0xBB, 0x00, 0x00, 0x00, 0x01, 0x7E, 0x01, 0xCC,
        0xDD, 0x00, 0x00, 0x00, 0x01, 0x7C, 0x01, 0x19, 0x22, 0x80,
    ];
    let whole = run_demux(None, &input, input.len());
    // split the start codes and the RPU terminator across chunks
    for chunk in 1..input.len() {
        assert_eq!(run_demux(None, &input, chunk), whole);
    }
}

#[test]
fn splitter_empty_input() {
    let (bl, el, rpu) = run_demux(None, &[], 8);
    assert_eq!(bl, Vec::<u8>::new());
    assert_eq!(el, Vec::<u8>::new());
    assert_eq!(rpu, Vec::<u8>::new());
}

#[test]
fn splitter_drops_unterminated_rpu() {
    // the RPU payload ends without its 0x80 terminator before end of input
    let input = [0x00, 0x00, 0x00, 0x01, 0x7C, 0x01, 0x19, 0x22];
    let mut r = DoviReader::new(None);
    let mut w = DoviWriter::new(true, true, true);
    r.process_chunk(&mut w, &input);
    r.finish(&mut w);
    assert_eq!(r.dropped_rpus, 1);
    assert_eq!(w.rpu_writer.unwrap(), vec![0x00, 0x00, 0x00, 0x01]);
}
