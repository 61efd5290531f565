use button_matrix::events::ButtonEvent;
use button_matrix::matrix::Matrix;
use button_matrix::osc::{emit_message, encode_batch, Emitter, OscStamp, BUTTON_ADDRESS};
use rosc::{OscPacket, OscType};

fn bundle_of(bytes: &[u8]) -> (u32, u32, Vec<(String, Vec<OscType>)>) {
    let (_, packet) = rosc::decoder::decode_udp(bytes).unwrap();
    match packet {
        OscPacket::Bundle(b) => {
            let msgs = b
                .content
                .into_iter()
                .map(|p| match p {
                    OscPacket::Message(m) => (m.addr, m.args),
                    OscPacket::Bundle(_) => panic!("nested bundle"),
                })
                .collect();
            (b.timetag.seconds, b.timetag.fractional, msgs)
        }
        OscPacket::Message(_) => panic!("expected a bundle"),
    }
}

#[test]
fn encode_batch_writes_a_stamped_bundle() {
    let stamp = OscStamp { seconds: 3_900_000_000, fractional: 7 };
    let events = vec![ButtonEvent { x: 4, y: 2 }, ButtonEvent { x: 0, y: 0 }];
    let bytes = encode_batch(stamp, &events);
    let (s, f, msgs) = bundle_of(&bytes);
    assert_eq!((s, f), (3_900_000_000, 7));
    assert_eq!(
        msgs,
        vec![
            (BUTTON_ADDRESS.to_string(), vec![OscType::Int(4), OscType::Int(2)]),
            ("/matrix/button".to_string(), vec![OscType::Int(0), OscType::Int(0)]),
        ]
    );
}

#[test]
fn encode_empty_batch() {
    let stamp = OscStamp { seconds: 1, fractional: 2 };
    let bytes = encode_batch(stamp, &vec![]);
    assert!(bytes.starts_with(b"#bundle\0"));
    let (_, _, msgs) = bundle_of(&bytes);
    assert!(msgs.is_empty());
}

#[test]
fn emit_message_encodes_the_diff() {
    let old = Matrix::new(2, 1, vec![false, false]).unwrap();
    let mat = Matrix::new(2, 1, vec![true, false]).unwrap();
    let stamp = OscStamp { seconds: 10, fractional: 0 };
    let (_, _, msgs) = bundle_of(&emit_message(&old, &mat, stamp));
    assert_eq!(msgs, vec![("/matrix/button".to_string(), vec![OscType::Int(0), OscType::Int(0)])]);
}

#[test]
fn emitter_rolls_the_previous_snapshot() {
    let mut em = Emitter::new(2, 1);
    let stamp = OscStamp { seconds: 10, fractional: 0 };
    let (_, _, first) = bundle_of(&em.cycle(b"01", stamp));
    assert_eq!(first, vec![("/matrix/button".to_string(), vec![OscType::Int(1), OscType::Int(0)])]);
    assert!(em.previous_matrix().get(1, 0));
    let (_, _, again) = bundle_of(&em.cycle(b"01", stamp));
    assert!(again.is_empty());
    let (_, _, released) = bundle_of(&em.cycle(b"00", stamp));
    assert_eq!(released, vec![("/matrix/button".to_string(), vec![OscType::Int(0), OscType::Int(0)])]);
}
