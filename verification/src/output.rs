//! What the looper sends out.
use crate::config::ReloadError;
use vstd::prelude::*;

verus! {

/// Something to do outside: a message for the synth, a message for the controller's lights, or a
/// notice that the pads of a scene could not be read.
#[derive(Debug)]
pub enum Output {
    Synth(Vec<u8>),
    Led(Vec<u8>),
    PadsRejected(ReloadError),
}

/// An output as a mathematical value; a notice is the line that reports it.
pub enum Sent {
    Synth(Seq<u8>),
    Led(Seq<u8>),
    PadsRejected(Seq<char>),
}

impl View for Output {
    type V = Sent;

    open spec fn view(&self) -> Sent {
        match *self {
            Output::Synth(bytes) => Sent::Synth(bytes@),
            Output::Led(bytes) => Sent::Led(bytes@),
            Output::PadsRejected(e) => Sent::PadsRejected(e.line()),
        }
    }
}

/// The outputs of `v`, in order.
pub open spec fn sent(v: Seq<Output>) -> Seq<Sent> {
    v.map_values(|o: Output| o@)
}

/// Appending an output appends what it sends.
pub broadcast proof fn lemma_sent_push(v: Seq<Output>, o: Output)
    ensures
        #[trigger] sent(v.push(o)) == sent(v).push(o@),
{
    assert(sent(v.push(o)) =~= sent(v).push(o@));
}

/// No outputs send nothing.
pub broadcast proof fn lemma_sent_empty()
    ensures
        #[trigger] sent(Seq::<Output>::empty()) == Seq::<Sent>::empty(),
{
    assert(sent(Seq::<Output>::empty()) =~= Seq::<Sent>::empty());
}

/// A message of two bytes for the synth.
pub fn synth2(a: u8, b: u8) -> (r: Output)
    ensures
        r@ == Sent::Synth(seq![a, b]),
{
    let mut bytes: Vec<u8> = Vec::new();
    bytes.push(a);
    bytes.push(b);
    assert(bytes@ =~= seq![a, b]);
    Output::Synth(bytes)
}

/// A message of three bytes for the synth.
pub fn synth3(a: u8, b: u8, c: u8) -> (r: Output)
    ensures
        r@ == Sent::Synth(seq![a, b, c]),
{
    let mut bytes: Vec<u8> = Vec::new();
    bytes.push(a);
    bytes.push(b);
    bytes.push(c);
    assert(bytes@ =~= seq![a, b, c]);
    Output::Synth(bytes)
}

/// The message that sets a light: a note of full velocity on the channel of the wanted state.
pub open spec fn led_message(note: u8, channel: u8) -> Sent {
    Sent::Led(seq![0x90u8 | channel, note, 127u8])
}

/// Sets a light.
pub fn send_led(note: u8, channel: u8) -> (r: Output)
    ensures
        r@ == led_message(note, channel),
{
    let mut bytes: Vec<u8> = Vec::new();
    bytes.push(0x90u8 | channel);
    bytes.push(note);
    bytes.push(127);
    assert(bytes@ =~= seq![0x90u8 | channel, note, 127u8]);
    Output::Led(bytes)
}

/// The message that silences a channel.
pub open spec fn all_notes_off(channel: u8) -> Sent {
    Sent::Synth(seq![0xB0u8 | channel, 123u8, 0u8])
}

/// Silences a channel.
pub fn silence(channel: u8) -> (r: Output)
    ensures
        r@ == all_notes_off(channel),
{
    synth3(0xB0u8 | channel, 123, 0)
}

} // verus!
