use wow_srp::normalized_string::NormalizedString;
use wow_srp::vanilla_header::{DecrypterHalf, EncrypterHalf, ProofSeed};
use wow_vanilla_server::outbound::{
    encrypt_batch, encrypt_headers, frame, headers_of, outgoing_packet_count, react, splice, wants_more, ByteBudget,
    PacketCounter, Read, ReaderAction,
};
use wow_vanilla_server::update_object::{chunk_ends, should_compress, ObjectKind, UpdateObject};

fn paired_crypto() -> (EncrypterHalf, DecrypterHalf) {
    let session_key = [0u8; 40];
    let username = NormalizedString::new("test").unwrap();
    let server_seed = ProofSeed::new();
    let server_seed_value = server_seed.seed();
    let client_seed = ProofSeed::new();
    let client_seed_value = client_seed.seed();
    let (client_proof, client_hc) = client_seed.into_client_header_crypto(&username, session_key, server_seed_value);
    let server_hc = server_seed
        .into_server_header_crypto(&username, session_key, client_proof, client_seed_value)
        .expect("paired server crypto");
    let (server_encrypter, _) = server_hc.split();
    let (_, client_decrypter) = client_hc.split();
    (server_encrypter, client_decrypter)
}

fn header(bytes: &[u8], at: usize) -> [u8; 4] {
    [bytes[at], bytes[at + 1], bytes[at + 2], bytes[at + 3]]
}

#[test]
fn batched_writer_preserves_arc4_sequence() {
    let (mut encrypter, mut decrypter) = paired_crypto();
    let packets: Vec<(u16, Vec<u8>)> = (100..105u16).map(|op| (op, vec![op as u8; 8])).collect();
    let staging: Vec<Vec<u8>> = packets.iter().map(|(op, body)| frame(*op, body)).collect();
    let batch = encrypt_batch(&mut encrypter, &staging);
    let mut at = 0;
    for (op, body) in &packets {
        let decoded = decrypter.decrypt_server_header(header(&batch.bytes, at));
        assert_eq!(decoded.opcode, *op);
        assert_eq!(decoded.size, body.len() as u16 + 2);
        assert_eq!(&batch.bytes[at + 4..at + 4 + body.len()], &body[..]);
        at += 4 + body.len();
    }
    assert_eq!(at, batch.bytes.len());
    assert_eq!(batch.written, 5);
    assert_eq!(batch.drained, 60);
}

#[test]
fn writer_carries_arc4_state_across_drains() {
    let (mut encrypter, mut decrypter) = paired_crypto();
    for batch_start in [100u16, 200u16, 300u16] {
        let batch_count = batch_start / 100;
        let staging: Vec<Vec<u8>> =
            (0..batch_count).map(|i| frame(batch_start + i, &vec![(batch_start + i) as u8; 4])).collect();
        let batch = encrypt_batch(&mut encrypter, &staging);
        for i in 0..batch_count {
            let op = batch_start + i;
            let at = i as usize * 8;
            let decoded = decrypter.decrypt_server_header(header(&batch.bytes, at));
            assert_eq!(decoded.opcode, op);
            assert_eq!(batch.bytes[at + 4], op as u8);
        }
    }
}

#[test]
fn writer_skips_short_buffers() {
    let (mut encrypter, mut decrypter) = paired_crypto();
    let staging = vec![frame(500, &vec![1, 2, 3, 4]), vec![0xFF, 0xFF, 0xFF], frame(501, &vec![5, 6, 7, 8])];
    let batch = encrypt_batch(&mut encrypter, &staging);
    for (i, op) in [500u16, 501u16].iter().enumerate() {
        let decoded = decrypter.decrypt_server_header(header(&batch.bytes, i * 8));
        assert_eq!(decoded.opcode, *op);
    }
    assert_eq!(batch.bytes.len(), 16);
    assert_eq!(batch.written, 2);
    assert_eq!(batch.drained, 19);
}

#[test]
fn a_frame_holds_length_opcode_and_body() {
    assert_eq!(frame(0x1ee, &vec![7, 8, 9]), vec![0, 5, 0xee, 1, 7, 8, 9]);
    let long = vec![0u8; 0x1_0000 - 1];
    assert_eq!(frame(1, &long)[..2], [0xff, 0xff]);
}

#[test]
fn headers_and_bodies_are_put_together() {
    let staging = vec![frame(0x1ee, &vec![7]), vec![1]];
    assert_eq!(headers_of(&staging), vec![(3, 0x1ee)]);
    let batch = splice(&vec![[1, 2, 3, 4]], &staging);
    assert_eq!(batch.bytes, vec![1, 2, 3, 4, 7]);
    let (mut encrypter, mut decrypter) = paired_crypto();
    let sealed = encrypt_headers(&mut encrypter, &vec![(3, 0x1ee)]);
    let plain = decrypter.decrypt_server_header(sealed[0]);
    assert_eq!((plain.size, plain.opcode), (3, 0x1ee));
}

#[test]
fn the_budget_is_spent_and_given_back() {
    let mut b = ByteBudget::new(100);
    assert!(b.try_send(60));
    assert!(!b.try_send(60));
    assert_eq!((b.available, b.dropped), (40, 1));
    b.release(60);
    assert_eq!(b.available, 100);
    assert!(wants_more(63));
    assert!(!wants_more(64));
}

#[test]
fn packets_are_counted() {
    let mut c = PacketCounter { sent: 5 };
    c.record(3);
    assert_eq!(outgoing_packet_count(&c), 8);
}

#[test]
fn a_reader_goes_on_until_the_connection_breaks() {
    assert_eq!(react(Read::Ping { sequence_id: 4 }), ReaderAction::Pong { sequence_id: 4 });
    assert_eq!(react(Read::Message), ReaderAction::Forward);
    assert_eq!(react(Read::UnknownOpcode { size: 12 }), ReaderAction::Skip { bytes: 12 });
    assert_eq!(react(Read::Malformed), ReaderAction::Continue);
    assert_eq!(react(Read::Broken), ReaderAction::Stop);
}

#[test]
fn empty_objects_returns_none() {
    assert!(UpdateObject::from_objects(Vec::new()).is_none());
}

#[test]
fn single_values_stays_plain() {
    let r = UpdateObject::from_objects(vec![ObjectKind::Values]).unwrap();
    assert!(matches!(r, UpdateObject::Plain(_)));
}

#[test]
fn single_create_object_is_compressed() {
    let r = UpdateObject::from_objects(vec![ObjectKind::CreateObject]).unwrap();
    assert!(matches!(r, UpdateObject::Compressed(_)));
}

#[test]
fn two_values_objects_are_compressed() {
    let r = UpdateObject::from_objects(vec![ObjectKind::Values, ObjectKind::Values]).unwrap();
    assert!(matches!(r, UpdateObject::Compressed(_)));
}

#[test]
fn mixed_batch_with_create_is_compressed() {
    let r = UpdateObject::from_objects(vec![ObjectKind::Values, ObjectKind::CreateObject]).unwrap();
    assert!(matches!(r, UpdateObject::Compressed(_)));
}

#[test]
fn what_is_created_compresses_by_itself() {
    assert!(should_compress(&vec![ObjectKind::CreateObject2]));
    assert!(!should_compress(&vec![ObjectKind::OutOfRange]));
    assert!(!should_compress(&vec![]));
}

#[test]
fn many_objects_go_into_many_updates() {
    assert!(chunk_ends(0).is_empty());
    assert_eq!(chunk_ends(1), vec![1]);
    assert_eq!(chunk_ends(50), vec![50]);
    assert_eq!(chunk_ends(51), vec![50, 51]);
    assert_eq!(chunk_ends(120), vec![50, 100, 120]);
}
