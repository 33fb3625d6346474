use eolconv::engine::TransformEngine;
use eolconv::eol::Eol;

fn run_chunks(eol: Eol, chunks: &[&[u8]]) -> Vec<u8> {
    let mut engine = TransformEngine::new(eol);
    let mut result = Vec::new();
    for chunk in chunks {
        engine.feed(&chunk.to_vec());
        result.extend(engine.take_output());
    }
    result.extend(engine.finish());
    result
}

#[test]
fn streaming_matches_whole_buffer_transform() {
    let input: &[u8] = b"a\rb\r\nc\nd\r";
    for eol in [Eol::Lf, Eol::Crlf, Eol::Cr] {
        let whole = eol.transform_fn(&input.to_vec());
        let streamed = run_chunks(eol, &[b"a\rb", b"\r\nc\nd", b"\r"]);
        assert_eq!(streamed, whole);
    }
}

#[test]
fn crlf_split_across_chunks_is_one_break() {
    assert_eq!(run_chunks(Eol::Lf, &[b"x\r", b"\ny"]), b"x\ny");
    assert_eq!(run_chunks(Eol::Crlf, &[b"x\r", b"\ny"]), b"x\r\ny");
    assert_eq!(run_chunks(Eol::Cr, &[b"x\r", b"\ny"]), b"x\ry");
}

#[test]
fn trailing_cr_is_flushed_at_finish() {
    assert_eq!(run_chunks(Eol::Lf, &[b"x\r"]), b"x\n");
    assert_eq!(run_chunks(Eol::Crlf, &[b"\r"]), b"\r\n");
}

#[test]
fn byte_at_a_time_feeding_works() {
    let input: &[u8] = b"one\r\ntwo\rthree\n";
    let mut engine = TransformEngine::new(Eol::Lf);
    for &b in input {
        engine.feed_byte(b);
    }
    let mut result = engine.take_output();
    result.extend(engine.finish());
    assert_eq!(result, b"one\ntwo\nthree\n");
}

#[test]
fn empty_stream_yields_empty_output() {
    let engine = TransformEngine::new(Eol::Crlf);
    assert_eq!(engine.finish(), b"");
}
