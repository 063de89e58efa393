use pumpkindb::client::{render_item, Input, LineBuffer};
use pumpkindb::encoding::{decode, encode_data, encode_instruction, Kind};
use pumpkindb::dispatch::execute;
use pumpkindb::env::{Env, EnvId};
use pumpkindb::error::Error;
use pumpkindb::mod_uuid::{Handler, UUID_V4};
use pumpkindb::script::compile;
use pumpkindb::protocol::{
    decode_items, frame, frame_length, read_message, submission, Message, RESULT_TAG, TRACE_TAG,
};

#[test]
fn frame_prefixes_big_endian_length() {
    assert_eq!(frame(&[7, 8, 9]), vec![0, 0, 0, 3, 7, 8, 9]);
    let big = vec![0u8; 0x0102];
    assert_eq!(frame(&big)[..4], [0, 0, 1, 2]);
    assert_eq!(frame_length(&[0, 0, 1, 2]), Some(0x0102));
    assert_eq!(frame_length(&[1, 2, 3]), None);
}

fn result_frame(items: &[&[u8]]) -> Vec<u8> {
    let mut p = RESULT_TAG.to_vec();
    for i in items {
        p.extend(encode_data(i));
    }
    p
}

#[test]
fn generate_then_result_has_one_entry() {
    let mut h = Handler::new();
    let mut e = Env::new(EnvId(1));
    let program = UUID_V4.to_vec();
    assert_eq!(execute(&mut h, &mut e, &program), Ok(()));
    let id = e.pop().unwrap();
    assert_eq!(e.len(), 0);
    let payload = result_frame(&[&id, &[]]);
    match read_message(&payload).unwrap() {
        Message::Done(r) => {
            assert_eq!(r.entries.len(), 1);
            assert_eq!(r.entries[0].len(), 16);
            assert!(r.failure.is_none());
        }
        _ => panic!("expected a result"),
    }
}

#[test]
fn trace_then_failure() {
    let mut trace = TRACE_TAG.to_vec();
    trace.extend(encode_data(b"point"));
    let error = encode_data(b"EmptyStack");
    let frames = vec![trace, result_frame(&[&error])];
    let mut traces = 0;
    let mut failure = None;
    for f in frames.iter() {
        match read_message(f).unwrap() {
            Message::Trace(v) => {
                assert_eq!(v, b"point".to_vec());
                traces += 1;
            }
            Message::Done(r) => {
                assert!(r.entries.is_empty());
                failure = r.failure;
            }
            Message::Other => panic!("unexpected frame"),
        }
    }
    assert_eq!(traces, 1);
    assert_eq!(failure, Some(error.clone()));
    assert_eq!(decode_items(&error), Ok(vec![b"EmptyStack".to_vec()]));
}

#[test]
fn result_with_several_entries() {
    let payload = result_frame(&[b"a", b"bc", &[]]);
    match read_message(&payload).unwrap() {
        Message::Done(r) => {
            assert_eq!(r.entries, vec![b"a".to_vec(), b"bc".to_vec()]);
            assert!(r.failure.is_none());
        }
        _ => panic!("expected a result"),
    }
    match read_message(&RESULT_TAG).unwrap() {
        Message::Done(r) => assert!(r.entries.is_empty() && r.failure.is_none()),
        _ => panic!("expected a result"),
    }
}

#[test]
fn untagged_and_malformed_frames() {
    assert!(matches!(read_message(b"HELLO").unwrap(), Message::Other));
    assert!(matches!(read_message(b"").unwrap(), Message::Other));
    let mut bad = RESULT_TAG.to_vec();
    bad.extend([5u8, 1]);
    assert!(matches!(read_message(&bad), Err(Error::MalformedHeader)));
    let mut instr = TRACE_TAG.to_vec();
    instr.extend(encode_instruction(b"DUP").unwrap());
    assert!(matches!(read_message(&instr), Err(Error::MalformedHeader)));
}

#[test]
fn submission_wraps_program() {
    let id = [0xabu8; 16];
    let compiled = encode_data(b"hello");
    let msg = submission(&id, &compiled);
    let (k, p, n) = decode(&msg).unwrap();
    assert_eq!(k, Kind::Data);
    assert_eq!(p, id.to_vec());
    let (k, p, _) = decode(&msg[n..]).unwrap();
    assert_eq!(k, Kind::Instruction);
    assert_eq!(p, b"SUBSCRIBE".to_vec());
    let tail = encode_instruction(b"UNSUBSCRIBE").unwrap();
    assert!(msg.ends_with(&tail));
    let inner = encode_data(&compiled);
    assert!(msg.windows(inner.len()).any(|w| w == inner.as_slice()));
}

#[test]
fn render_text_and_binary() {
    let mut out = Vec::new();
    render_item(&mut out, b"abc");
    assert_eq!(out, b"\"abc\" ".to_vec());
    let mut out = Vec::new();
    render_item(&mut out, b"a\"b\\c");
    assert_eq!(out, b"\"a\\\"b\\\\c\" ".to_vec());
    let mut out = Vec::new();
    render_item(&mut out, &[0x00, 0xff, 0x1a]);
    assert_eq!(out, b"0x00ff1a ".to_vec());
    let mut out = Vec::new();
    render_item(&mut out, &[]);
    assert_eq!(out, b"\"\" ".to_vec());
}

#[test]
fn line_buffer_collects_until_dot() {
    let mut b = LineBuffer::new();
    assert!(matches!(b.feed(b"\\h"), Input::Help));
    assert!(matches!(b.feed(b"\\x"), Input::Ignored));
    assert!(matches!(b.feed(b"1 2"), Input::More));
    match b.feed(b"ADD.") {
        Input::Submit(p) => assert_eq!(p, b"1 2 ADD".to_vec()),
        _ => panic!("expected a program"),
    }
    assert!(matches!(b.feed(b"."), Input::Ignored));
    match b.feed(b"UUID/V4.") {
        Input::Submit(p) => assert_eq!(p, b"UUID/V4".to_vec()),
        _ => panic!("expected a program"),
    }
}

#[test]
fn compile_words_strings_and_hex() {
    let mut expected = encode_data(b"a b");
    expected.extend(encode_data(&[0x01, 0xab]));
    expected.extend(encode_data(&encode_instruction(b"DUP").unwrap()));
    expected.extend(encode_instruction(b"UUID/V4").unwrap());
    assert_eq!(compile(b"  \"a b\" 0x01AB\n'DUP\tUUID/V4 "), Some(expected));
    assert_eq!(compile(b""), Some(vec![]));
    assert_eq!(compile(b"0x"), Some(vec![0]));
}

#[test]
fn compile_rejects_bad_words() {
    assert_eq!(compile(b"\"open"), None);
    assert_eq!(compile(b"0x123"), None);
    assert_eq!(compile(b"0xzz"), None);
    assert_eq!(compile(b"'"), None);
    assert_eq!(compile(&vec![b'A'; 128]), None);
}
