use std::collections::VecDeque;

use canary::{
    decode_record, initiator_from_draws, Channel, Failure, Format, Handshake, SendFormat, Snow,
    Step, Transport, DEFAULT_CEILING, PACKET_LEN, TAG_LEN,
};

fn drive(a_draws: &[u64], b_draws: &[u64]) -> (Snow, Snow) {
    let (ha, first_a) = Handshake::new(a_draws[0]).unwrap();
    let (hb, first_b) = Handshake::new(b_draws[0]).unwrap();
    let mut to_a: VecDeque<Vec<u8>> = VecDeque::from(vec![first_b]);
    let mut to_b: VecDeque<Vec<u8>> = VecDeque::from(vec![first_a]);
    let mut a = Some(ha);
    let mut b = Some(hb);
    let mut done_a = None;
    let mut done_b = None;
    let (mut ia, mut ib) = (1usize, 1usize);
    for _ in 0..50 {
        if a.is_some() && !to_a.is_empty() {
            let h = a.take().unwrap();
            let p = to_a.pop_front().unwrap();
            match h.step(&p, a_draws[ia.min(a_draws.len() - 1)]).unwrap() {
                Step::Continue(h, send) => {
                    ia += 1;
                    a = Some(h);
                    to_b.extend(send);
                }
                Step::Done(s, send) => {
                    done_a = Some(s);
                    to_b.extend(send);
                }
            }
        }
        if b.is_some() && !to_b.is_empty() {
            let h = b.take().unwrap();
            let p = to_b.pop_front().unwrap();
            match h.step(&p, b_draws[ib.min(b_draws.len() - 1)]).unwrap() {
                Step::Continue(h, send) => {
                    ib += 1;
                    b = Some(h);
                    to_a.extend(send);
                }
                Step::Done(s, send) => {
                    done_b = Some(s);
                    to_a.extend(send);
                }
            }
        }
        if done_a.is_some() && done_b.is_some() {
            break;
        }
    }
    (done_a.unwrap(), done_b.unwrap())
}

fn pseudo_random(n: usize) -> Vec<u8> {
    let mut x: u64 = 0x9e3779b97f4a7c15;
    (0..n)
        .map(|_| {
            x ^= x << 13;
            x ^= x >> 7;
            x ^= x << 17;
            x as u8
        })
        .collect()
}

#[test]
fn coin_flip_roles() {
    assert_eq!(initiator_from_draws(5, 3), Some(true));
    assert_eq!(initiator_from_draws(3, 5), Some(false));
    assert_eq!(initiator_from_draws(4, 4), None);
}

#[test]
fn handshake_converges_both_ways() {
    for (a, b) in [(10u64, 3u64), (3, 10)] {
        let (sa, sb) = drive(&[a], &[b]);
        let c = sa.encrypt_packets(b"ping".to_vec()).unwrap();
        assert_eq!(sb.decrypt(&c), Ok(b"ping".to_vec()));
        let c = sb.encrypt_packets(b"pong".to_vec()).unwrap();
        assert_eq!(sa.decrypt(&c), Ok(b"pong".to_vec()));
    }
}

#[test]
fn handshake_redraws_on_tie() {
    let (sa, sb) = drive(&[7, 1], &[7, 9]);
    let c = sa.encrypt_packets(b"after tie".to_vec()).unwrap();
    assert_eq!(sb.decrypt(&c), Ok(b"after tie".to_vec()));
}

#[test]
fn handshake_rejects_garbage_draw() {
    let (h, _) = Handshake::new(1).unwrap();
    assert!(matches!(h.step(&[1, 2], 0), Err(Failure::InvalidData)));
}

#[test]
fn encrypted_bulk_transfer() {
    let (sa, sb) = drive(&[100], &[1]);
    let data = pseudo_random(200 * 1024);
    let c = sa.encrypt_packets(data.clone()).unwrap();
    let packets = (data.len() + PACKET_LEN - 1) / PACKET_LEN;
    assert_eq!(c.len(), data.len() + TAG_LEN * packets);
    for start in (0..data.len()).step_by(65535) {
        let end = (start + 65535).min(data.len());
        assert_ne!(&c[start..end], &data[start..end]);
    }
    assert_eq!(sb.decrypt(&c), Ok(data));
}

#[test]
fn tampered_ciphertext_fails() {
    let (sa, sb) = drive(&[2], &[1]);
    let mut c = sa.encrypt_packets(b"secret".to_vec()).unwrap();
    c[0] ^= 1;
    assert_eq!(sb.decrypt(&c), Err(Failure::Other));
    let c = sa.encrypt_packets(b"secret".to_vec()).unwrap();
    assert_eq!(sb.decrypt(&c[..10]), Err(Failure::Other));
}

#[test]
fn plain_channel_round_trip() {
    let ch = Channel::new(Transport::Stream);
    let wire = ch.send("hi", Format::Bincode).unwrap();
    assert_eq!(wire, vec![0, 0, 0, 0, 0, 0, 0, 10, 2, 0, 0, 0, 0, 0, 0, 0, b'h', b'i']);
    let (body, _) = decode_record(&wire, DEFAULT_CEILING).unwrap();
    assert_eq!(ch.receive(&body, Format::Bincode), Ok("hi".to_string()));
    let ws = Channel::new(Transport::Message);
    let msg = ws.send("hi", Format::Json).unwrap();
    assert_eq!(msg, b"\"hi\"".to_vec());
    assert_eq!(ws.receive(&msg, Format::Json), Ok("hi".to_string()));
}

#[test]
fn encrypted_channel_round_trip() {
    let (sa, sb) = drive(&[8], &[9]);
    let tx = Channel::encrypted(Transport::Stream, sa);
    let rx = Channel::encrypted(Transport::Stream, sb);
    let wire = tx.send("hello there", Format::Postcard).unwrap();
    let (body, _) = decode_record(&wire, DEFAULT_CEILING).unwrap();
    let plain = Format::Postcard.serialize("hello there").unwrap();
    assert_eq!(body.len(), plain.len() + TAG_LEN);
    assert_ne!(&body[..plain.len()], &plain[..]);
    assert_eq!(rx.receive(&body, Format::Postcard), Ok("hello there".to_string()));
    let bare = rx.bare();
    assert!(bare.receive(&body, Format::Postcard).is_err());
}

#[test]
fn empty_input_encrypts_and_decrypts_to_nothing() {
    let (sa, sb) = drive(&[5], &[6]);
    assert_eq!(sa.encrypt_packets(vec![]), Ok(vec![]));
    assert_eq!(sb.decrypt(&[]), Ok(vec![]));
}

#[test]
fn short_last_chunk_fails() {
    let (sa, sb) = drive(&[5], &[6]);
    let data = pseudo_random(PACKET_LEN + 3);
    let mut c = sa.encrypt_packets(data).unwrap();
    assert_eq!(c.len(), PACKET_LEN + 3 + 2 * TAG_LEN);
    c.truncate(PACKET_LEN + TAG_LEN + 10);
    assert_eq!(sb.decrypt(&c), Err(Failure::Other));
}

#[test]
fn unknown_suite_is_other() {
    assert!(matches!(Handshake::new_with_params("Noise_XX_bogus", 1), Err(Failure::Other)));
    assert!(Handshake::new_with_params(canary::DEFAULT_NOISE_PARAMS, 1).is_ok());
}

#[test]
fn initiator_sends_its_public_key() {
    let (h, first) = Handshake::new(10).unwrap();
    assert_eq!(first, vec![10, 0, 0, 0, 0, 0, 0, 0]);
    match h.step(&[3, 0, 0, 0, 0, 0, 0, 0], 0).unwrap() {
        Step::Continue(_, send) => {
            assert_eq!(send.len(), 1);
            assert_eq!(send[0].len(), 40);
            assert_eq!(&send[0][..8], &[32, 0, 0, 0, 0, 0, 0, 0]);
        }
        Step::Done(..) => panic!("handshake cannot end after the draw"),
    }
    let (h, _) = Handshake::new(3).unwrap();
    match h.step(&[10, 0, 0, 0, 0, 0, 0, 0], 0).unwrap() {
        Step::Continue(_, send) => assert!(send.is_empty()),
        Step::Done(..) => panic!("handshake cannot end after the draw"),
    }
}
