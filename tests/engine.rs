use pumpkindb::dispatch::{execute, Chain, Dispatcher};
use pumpkindb::encoding::{encode_data, encode_instruction};
use pumpkindb::env::{Env, EnvId};
use pumpkindb::error::Error;
use pumpkindb::mod_uuid::{Handler, UUID_STRING_TO, UUID_TO_STRING, UUID_V4};

fn env() -> Env {
    Env::new(EnvId(7))
}

#[test]
fn pop_on_empty_stack_fails_twice() {
    let mut e = env();
    assert_eq!(e.pop(), Err(Error::EmptyStack));
    assert_eq!(e.len(), 0);
    assert_eq!(e.pop(), Err(Error::EmptyStack));
    assert_eq!(e.pid(), EnvId(7));
}

#[test]
fn push_then_pop() {
    let mut e = env();
    e.push(vec![1]);
    e.push(vec![2, 3]);
    assert_eq!(e.len(), 2);
    assert_eq!(e.pop(), Ok(vec![2, 3]));
    assert_eq!(e.pop(), Ok(vec![1]));
    assert_eq!(e.allocate(3), vec![0, 0, 0]);
}

#[test]
fn generate_pushes_version_four() {
    let mut h = Handler::new();
    let mut e = env();
    assert_eq!(h.handle_uuid_v4(&mut e, &UUID_V4, EnvId(7)), Ok(()));
    let v = e.pop().unwrap();
    assert_eq!(v.len(), 16);
    assert_eq!(v[6] & 0xf0, 0x40);
    assert_eq!(v[8] & 0xc0, 0x80);
}

#[test]
fn to_text_gives_hyphenated_lowercase() {
    let mut h = Handler::new();
    let mut e = env();
    e.push(vec![
        0xa1, 0xa2, 0xa3, 0xa4, 0xb1, 0xb2, 0xc1, 0xc2, 0xd1, 0xd2, 0xd3, 0xd4, 0xd5, 0xd6, 0xd7, 0xd8,
    ]);
    assert_eq!(h.handle_uuid_to_string(&mut e, &UUID_TO_STRING, EnvId(7)), Ok(()));
    assert_eq!(e.pop().unwrap(), b"a1a2a3a4-b1b2-c1c2-d1d2-d3d4d5d6d7d8".to_vec());
}

#[test]
fn generated_identifier_round_trips_through_text() {
    let mut h = Handler::new();
    let mut e = env();
    h.handle_uuid_v4(&mut e, &UUID_V4, EnvId(7)).unwrap();
    let v = e.pop().unwrap();
    e.push(v.clone());
    h.handle_uuid_to_string(&mut e, &UUID_TO_STRING, EnvId(7)).unwrap();
    h.handle_uuid_string_to(&mut e, &UUID_STRING_TO, EnvId(7)).unwrap();
    assert_eq!(e.pop().unwrap(), v);
    assert_eq!(e.len(), 0);
}

#[test]
fn to_text_rejects_five_bytes() {
    let mut h = Handler::new();
    let mut e = env();
    e.push(b"below".to_vec());
    e.push(vec![0x01, 0x02, 0x03, 0x04, 0x05]);
    assert_eq!(
        h.handle_uuid_to_string(&mut e, &UUID_TO_STRING, EnvId(7)),
        Err(Error::InvalidValue(vec![0x01, 0x02, 0x03, 0x04, 0x05]))
    );
    assert_eq!(e.len(), 1);
    assert_eq!(e.pop().unwrap(), b"below".to_vec());
}

#[test]
fn from_text_rejects_non_identifier() {
    let mut h = Handler::new();
    let mut e = env();
    e.push(b"not-a-uuid".to_vec());
    assert_eq!(
        h.handle_uuid_string_to(&mut e, &UUID_STRING_TO, EnvId(7)),
        Err(Error::InvalidValue(b"not-a-uuid".to_vec()))
    );
    assert_eq!(e.len(), 0);
}

#[test]
fn from_text_rejects_invalid_utf8() {
    let mut h = Handler::new();
    let mut e = env();
    e.push(vec![0xff, 0xfe]);
    assert_eq!(
        h.handle_uuid_string_to(&mut e, &UUID_STRING_TO, EnvId(7)),
        Err(Error::InvalidValue(vec![0xff, 0xfe]))
    );
}

#[test]
fn from_text_accepts_hyphenated_of_either_case() {
    let bytes = vec![
        0xa1, 0xa2, 0xa3, 0xa4, 0xb1, 0xb2, 0xc1, 0xc2, 0xd1, 0xd2, 0xd3, 0xd4, 0xd5, 0xd6, 0xd7, 0xd8,
    ];
    let mut h = Handler::new();
    let mut e = env();
    e.push(b"A1A2A3A4-B1B2-C1C2-D1D2-D3D4D5D6D7D8".to_vec());
    assert_eq!(h.handle_uuid_string_to(&mut e, &UUID_STRING_TO, EnvId(7)), Ok(()));
    assert_eq!(e.pop().unwrap(), bytes);
}

#[test]
fn from_text_rejects_other_spellings() {
    let forms: [&[u8]; 4] = [
        b"a1a2a3a4b1b2c1c2d1d2d3d4d5d6d7d8",
        b"000102030405060708090a0b0c0d0e0f",
        b"{a1a2a3a4-b1b2-c1c2-d1d2-d3d4d5d6d7d8}",
        b"URN:uuid:a1a2a3a4-b1b2-c1c2-d1d2-d3d4d5d6d7d8",
    ];
    let mut h = Handler::new();
    for f in forms.iter() {
        let mut e = env();
        e.push(b"below".to_vec());
        e.push(f.to_vec());
        assert_eq!(
            h.handle_uuid_string_to(&mut e, &UUID_STRING_TO, EnvId(7)),
            Err(Error::InvalidValue(f.to_vec()))
        );
        assert_eq!(e.len(), 1);
        assert_eq!(e.pop().unwrap(), b"below".to_vec());
    }
}

#[test]
fn from_text_rejects_bad_hyphenated() {
    let mut h = Handler::new();
    let mut e = env();
    let text = b"a1a2a3a4-b1b2-c1c2-d1d2-d3d4d5d6d7dg".to_vec();
    e.push(text.clone());
    assert_eq!(
        h.handle_uuid_string_to(&mut e, &UUID_STRING_TO, EnvId(7)),
        Err(Error::InvalidValue(text))
    );
}

#[test]
fn conversions_on_empty_stack() {
    let mut h = Handler::new();
    let mut e = env();
    assert_eq!(h.handle_uuid_to_string(&mut e, &UUID_TO_STRING, EnvId(7)), Err(Error::EmptyStack));
    assert_eq!(h.handle_uuid_string_to(&mut e, &UUID_STRING_TO, EnvId(7)), Err(Error::EmptyStack));
}

#[test]
fn handler_passes_on_other_instructions() {
    let mut h = Handler::new();
    let mut e = env();
    e.push(vec![9]);
    let other = encode_instruction(b"DUP").unwrap();
    assert_eq!(h.handle_uuid_v4(&mut e, &other, EnvId(7)), Err(Error::UnknownInstruction(other.clone())));
    assert_eq!(h.handle(&mut e, &other, EnvId(7)), Err(Error::UnknownInstruction(other.clone())));
    assert_eq!(e.len(), 1);
}

#[test]
fn chain_routes_to_first_owner_only() {
    let mut chain = Chain { first: Handler::new(), rest: Handler::new() };
    let mut e = env();
    assert_eq!(chain.handle(&mut e, &UUID_V4, EnvId(7)), Ok(()));
    assert_eq!(e.len(), 1);
    assert_eq!(chain.handle(&mut e, &UUID_TO_STRING, EnvId(7)), Ok(()));
    assert_eq!(e.len(), 1);
    assert_eq!(e.pop().unwrap().len(), 36);
    let w = encode_instruction(b"W").unwrap();
    e.push(vec![4]);
    assert_eq!(chain.handle(&mut e, &w, EnvId(7)), Err(Error::UnknownInstruction(w.clone())));
    assert_eq!(e.len(), 1);
}

#[test]
fn execute_runs_items_in_order() {
    let mut program = encode_data(b"x");
    program.extend(UUID_V4.iter());
    program.extend(UUID_TO_STRING.iter());
    let mut h = Handler::new();
    let mut e = env();
    assert_eq!(execute(&mut h, &mut e, &program), Ok(()));
    assert_eq!(e.len(), 2);
    assert_eq!(e.pop().unwrap().len(), 36);
    assert_eq!(e.pop().unwrap(), b"x".to_vec());
}

#[test]
fn execute_stops_at_first_failure() {
    let mut program = UUID_TO_STRING.to_vec();
    program.extend(encode_data(b"never").iter());
    let mut h = Handler::new();
    let mut e = env();
    assert_eq!(execute(&mut h, &mut e, &program), Err(Error::EmptyStack));
    assert_eq!(e.len(), 0);

    let w = encode_instruction(b"W").unwrap();
    assert_eq!(execute(&mut h, &mut e, &w), Err(Error::UnknownInstruction(w.clone())));
    assert_eq!(execute(&mut h, &mut e, &[5, 1]), Err(Error::MalformedHeader));
}
