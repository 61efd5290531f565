//! Event batches on the network: one OSC bundle per cycle, stamped with
//! the capture time, holding one message per event.
use vstd::prelude::*;
use rosc::{OscBundle, OscMessage, OscPacket, OscTime, OscType};
use crate::events::{ButtonEvent, comparable, diff, events_between};
use crate::matrix::{Matrix, decodes_pressed, valid_dims};

verus! {

/// The address that every button message is sent to.
pub const BUTTON_ADDRESS: &'static str = "/matrix/button";

#[verifier::external_type_specification]
#[verifier::external_body]
pub struct ExOscError(rosc::OscError);

/// An OSC time tag: seconds since 1900 and a binary fraction of a second.
#[derive(Debug, Clone, Copy, PartialEq, Eq, Structural)]
pub struct OscStamp {
    pub seconds: u32,
    pub fractional: u32,
}

/// The bytes of an OSC bundle with the given time tag whose content is one
/// message per pair, sent to `addr` with the pair's two integers as its
/// arguments, in order.
pub uninterp spec fn osc_bundle_bytes(
    addr: Seq<char>,
    seconds: u32,
    fractional: u32,
    args: Seq<(i32, i32)>,
) -> Seq<u8>;

/// Relies on rosc::encoder::encode, which writes into a `Vec` and so always
/// returns `Ok` with the encoded packet.
#[verifier::external_body]
fn encode_bundle(addr: &str, seconds: u32, fractional: u32, args: &Vec<(i32, i32)>)
    -> (r: Result<Vec<u8>, rosc::OscError>)
    ensures
        r is Ok,
        r.unwrap()@ == osc_bundle_bytes(addr@, seconds, fractional, args@),
{
    let mut content = Vec::new();
    for (x, y) in args.iter() {
        let msg = OscMessage { addr: addr.to_string(), args: vec![OscType::Int(*x), OscType::Int(*y)] };
        content.push(OscPacket::Message(msg));
    }
    let timetag = OscTime { seconds, fractional };
    rosc::encoder::encode(&OscPacket::Bundle(OscBundle { timetag, content }))
}

/// The two message arguments of an event.
pub open spec fn event_args(e: ButtonEvent) -> (i32, i32) {
    (e.x as i32, e.y as i32)
}

/// The encoded bundle of a batch of events.
pub open spec fn batch_bytes(stamp: OscStamp, events: Seq<ButtonEvent>) -> Seq<u8> {
    osc_bundle_bytes(
        BUTTON_ADDRESS@,
        stamp.seconds,
        stamp.fractional,
        events.map_values(|e: ButtonEvent| event_args(e)),
    )
}

/// Encodes a batch of events as one bundle stamped with `stamp`.
pub fn encode_batch(stamp: OscStamp, events: &Vec<ButtonEvent>) -> (r: Vec<u8>)
    ensures
        r@ == batch_bytes(stamp, events@),
{
    let mut args: Vec<(i32, i32)> = Vec::new();
    let mut i: usize = 0;
    while i < events.len()
        invariant
            i <= events@.len(),
            args@ == events@.subrange(0, i as int).map_values(|e: ButtonEvent| event_args(e)),
        decreases events@.len() - i,
    {
        let e = events[i];
        args.push((e.x as i32, e.y as i32));
        i = i + 1;
        assert(args@ =~= events@.subrange(0, i as int).map_values(
            |e: ButtonEvent| event_args(e),
        ));
    }
    assert(events@.subrange(0, events@.len() as int) =~= events@);
    match encode_bundle(BUTTON_ADDRESS, stamp.seconds, stamp.fractional, &args) {
        Ok(bytes) => bytes,
        // never taken: encoding into memory cannot fail
        Err(_) => Vec::new(),
    }
}

/// The bundle of one cycle: the events between `old` and `mat`, stamped
/// with `stamp`.
pub fn emit_message(old: &Matrix, mat: &Matrix, stamp: OscStamp) -> (r: Vec<u8>)
    requires
        comparable(*old, *mat),
    ensures
        r@ == batch_bytes(stamp, events_between(*old, *mat)),
{
    let events = diff(old, mat);
    encode_batch(stamp, &events)
}

/// The network side of the acquisition loop: the previous snapshot, and
/// for each new frame the bundle to send.
#[derive(Debug)]
pub struct Emitter {
    prev: Matrix,
}

impl Emitter {
    /// The snapshot that the next frame is compared with.
    pub closed spec fn previous(&self) -> Matrix {
        self.prev
    }

    pub open spec fn wf(&self) -> bool {
        self.previous().wf()
    }

    /// An emitter whose first comparison is against a released matrix.
    pub fn new(width: usize, height: usize) -> (r: Emitter)
        requires
            valid_dims(width as int, height as int),
        ensures
            r.wf(),
            r.previous().spec_width() == width,
            r.previous().spec_height() == height,
            crate::matrix::all_released(r.previous().cells()),
    {
        Emitter { prev: Matrix::released(width, height) }
    }

    /// The snapshot that the next frame is compared with.
    pub fn previous_matrix(&self) -> (r: &Matrix)
        ensures
            *r == self.previous(),
    {
        &self.prev
    }

    /// One cycle: decodes `frame`, returns the bundle of the events since
    /// the previous snapshot stamped with `stamp`, and keeps the new
    /// snapshot in place of the previous one.
    pub fn cycle(&mut self, frame: &[u8], stamp: OscStamp) -> (r: Vec<u8>)
        requires
            old(self).wf(),
            frame@.len() == old(self).previous().spec_width() * old(self).previous().spec_height(),
        ensures
            final(self).wf(),
            final(self).previous().spec_width() == old(self).previous().spec_width(),
            final(self).previous().spec_height() == old(self).previous().spec_height(),
            final(self).previous().cells() == frame@.map_values(|b: u8| decodes_pressed(b)),
            r@ == batch_bytes(stamp, events_between(old(self).previous(), final(self).previous())),
    {
        let m = Matrix::decode(self.prev.width(), self.prev.height(), frame);
        let packet = emit_message(&self.prev, &m, stamp);
        self.prev = m;
        packet
    }
}

} // verus!
