//! What a run of the frame reader comes to, stated over whole sources: frames
//! one after another are published in order, a source that ends between two
//! frames ends the run cleanly, and one that ends inside a frame fails it.

use super::reader::{spec_data_len, spec_run, ReaderError, RunOutcome};
use crate::protocol::packet::{
    lemma_from_buffers_into_buffers, lemma_into_buffer_joins_buffers,
    lemma_into_buffers_from_buffers, spec_from_buffers, spec_has_room, spec_secondary_bytes,
    spec_user_bytes, PacketView,
};
use crate::protocol::wire::{lemma_u16_be_round_trip, spec_u16_to_be};
use vstd::prelude::*;

verus! {

/// Whether `frame` is one whole frame that decodes: six header bytes, and a
/// data field of the length that they announce.
pub open spec fn spec_is_frame(frame: Seq<u8>) -> bool {
    &&& frame.len() >= 6
    &&& frame.len() == 6 + spec_data_len(frame.subrange(0, 6))
    &&& spec_from_buffers(frame.subrange(0, 6), frame.subrange(6, frame.len() as int)) is Ok
}

/// The packet that a frame decodes to.
pub open spec fn spec_frame_packet(frame: Seq<u8>) -> PacketView
    recommends
        spec_is_frame(frame),
{
    spec_from_buffers(frame.subrange(0, 6), frame.subrange(6, frame.len() as int))->Ok_0
}

/// The packets that frames decode to, in the order of the frames.
pub open spec fn spec_frame_packets(frames: Seq<Seq<u8>>) -> Seq<PacketView> {
    Seq::new(frames.len(), |i: int| spec_frame_packet(frames[i]))
}

/// The frames one after another, as one source.
pub open spec fn spec_join(frames: Seq<Seq<u8>>) -> Seq<u8>
    decreases frames.len(),
{
    if frames.len() == 0 {
        Seq::empty()
    } else {
        frames.first() + spec_join(frames.drop_first())
    }
}

/// The packets one after another, each as its one buffer.
pub open spec fn spec_wire(packets: Seq<PacketView>) -> Seq<u8>
    decreases packets.len(),
{
    if packets.len() == 0 {
        Seq::empty()
    } else {
        packets.first().spec_into_buffer() + spec_wire(packets.drop_first())
    }
}

/// A source that ends before a header is complete, but not before its first
/// byte, is truncated: the run fails and publishes nothing.
pub proof fn lemma_run_short_header(src: Seq<u8>)
    requires
        0 < src.len() < 6,
    ensures
        spec_run(src) == RunOutcome::spec_ended(Err(ReaderError::TruncatedFrame)),
{
}

/// A source that ends before the data field that its header announces is
/// complete is truncated: the run fails and publishes nothing.
pub proof fn lemma_run_short_body(src: Seq<u8>)
    requires
        6 <= src.len() < 6 + spec_data_len(src.subrange(0, 6)),
    ensures
        spec_run(src) == RunOutcome::spec_ended(Err(ReaderError::TruncatedFrame)),
{
}

/// A run over a frame and what follows it publishes the frame's packet, and
/// then goes as the run over what follows.
pub proof fn lemma_run_frame(frame: Seq<u8>, rest: Seq<u8>)
    requires
        spec_is_frame(frame),
    ensures
        spec_run(frame + rest) == spec_run(rest).spec_after(spec_frame_packet(frame)),
{
    let src = frame + rest;
    let end = frame.len() as int;
    assert(src.subrange(0, 6) =~= frame.subrange(0, 6));
    assert(src.subrange(6, end) =~= frame.subrange(6, end));
    assert(src.subrange(end, src.len() as int) =~= rest);
}

/// A run over frames and what follows them publishes the frames' packets in
/// the order of the frames, and then goes as the run over what follows.
pub proof fn lemma_run_frames(frames: Seq<Seq<u8>>, rest: Seq<u8>)
    requires
        forall|i: int| 0 <= i < frames.len() ==> spec_is_frame(#[trigger] frames[i]),
    ensures
        spec_run(spec_join(frames) + rest).packets == spec_frame_packets(frames) + spec_run(
            rest,
        ).packets,
        spec_run(spec_join(frames) + rest).result == spec_run(rest).result,
    decreases frames.len(),
{
    if frames.len() == 0 {
        assert(spec_join(frames) + rest =~= rest);
        assert(spec_frame_packets(frames) + spec_run(rest).packets =~= spec_run(rest).packets);
    } else {
        let first = frames.first();
        let others = frames.drop_first();
        assert(forall|i: int| 0 <= i < others.len() ==> others[i] == frames[i + 1]);
        lemma_run_frames(others, rest);
        lemma_run_frame(first, spec_join(others) + rest);
        assert(spec_join(frames) + rest =~= first + (spec_join(others) + rest));
        assert(spec_frame_packets(frames) =~= seq![spec_frame_packet(first)] + spec_frame_packets(
            others,
        ));
        assert(spec_frame_packets(frames) + spec_run(rest).packets =~= seq![
            spec_frame_packet(first),
        ] + (spec_frame_packets(others) + spec_run(rest).packets));
    }
}

/// A run over any number of frames, one after another on one source, ends
/// cleanly and publishes exactly the frames' packets, in the order of the
/// frames.
pub proof fn lemma_run_whole_frames(frames: Seq<Seq<u8>>)
    requires
        forall|i: int| 0 <= i < frames.len() ==> spec_is_frame(#[trigger] frames[i]),
    ensures
        spec_run(spec_join(frames)) == (RunOutcome {
            packets: spec_frame_packets(frames),
            result: Ok(()),
        }),
{
    let rest = Seq::<u8>::empty();
    lemma_run_frames(frames, rest);
    assert(spec_join(frames) + rest =~= spec_join(frames));
    assert(spec_frame_packets(frames) + spec_run(rest).packets =~= spec_frame_packets(frames));
}

/// A run over frames followed by the start of a header that never completes
/// publishes the frames' packets and then fails: the frame is truncated.
pub proof fn lemma_run_frames_then_short_header(frames: Seq<Seq<u8>>, stub: Seq<u8>)
    requires
        forall|i: int| 0 <= i < frames.len() ==> spec_is_frame(#[trigger] frames[i]),
        0 < stub.len() < 6,
    ensures
        spec_run(spec_join(frames) + stub) == (RunOutcome {
            packets: spec_frame_packets(frames),
            result: Err(ReaderError::TruncatedFrame),
        }),
{
    lemma_run_frames(frames, stub);
    assert(spec_frame_packets(frames) + spec_run(stub).packets =~= spec_frame_packets(frames));
}

/// The one buffer that encodes a well-formed packet is a frame, and the
/// frame's packet is that packet.
pub proof fn lemma_encoded_packet_is_frame(packet: PacketView)
    requires
        packet.wf(),
    ensures
        spec_is_frame(packet.spec_into_buffer()),
        spec_frame_packet(packet.spec_into_buffer()) == packet,
{
    let frame = packet.spec_into_buffer();
    let header = packet.spec_into_buffers().0;
    let data = packet.spec_into_buffers().1;
    lemma_into_buffers_from_buffers(packet);
    lemma_u16_be_round_trip(packet.pri_header.data_length);
    assert(header.len() == 6);
    assert(frame.subrange(0, 6) =~= header);
    assert(frame.subrange(6, frame.len() as int) =~= data);
    assert(header[4] == spec_u16_to_be(packet.pri_header.data_length)[0]);
    assert(header[5] == spec_u16_to_be(packet.pri_header.data_length)[1]);
    assert(packet.spec_covered() =~= packet.pri_header.spec_get_buffer() + spec_secondary_bytes(
        packet.sec_header,
    ) + spec_user_bytes(packet.user_data));
}

/// A frame's packet is well-formed, and encodes to the frame, if its header
/// announces room for all its parts.
proof fn lemma_frame_packet(header: Seq<u8>, data: Seq<u8>)
    requires
        header.len() == 6,
        data.len() == spec_data_len(header),
        spec_from_buffers(header, data) is Ok,
        spec_has_room(spec_from_buffers(header, data)->Ok_0.pri_header),
    ensures
        spec_from_buffers(header, data)->Ok_0.wf(),
        spec_from_buffers(header, data)->Ok_0.spec_into_buffer() == header + data,
{
    lemma_from_buffers_into_buffers(header, data);
    lemma_into_buffer_joins_buffers(spec_from_buffers(header, data)->Ok_0);
}

/// A run over a source that starts with a frame publishes the frame's packet
/// and goes on with what follows the frame.
proof fn lemma_run_unfolds(src: Seq<u8>)
    requires
        src.len() >= 6,
        src.len() >= 6 + spec_data_len(src.subrange(0, 6)),
        spec_from_buffers(
            src.subrange(0, 6),
            src.subrange(6, 6 + spec_data_len(src.subrange(0, 6))),
        ) is Ok,
    ensures
        ({
            let header = src.subrange(0, 6);
            let end = 6 + spec_data_len(header);
            let data = src.subrange(6, end);
            let rest = src.subrange(end, src.len() as int);
            let packet = spec_from_buffers(header, data)->Ok_0;
            &&& spec_run(src).result == spec_run(rest).result
            &&& spec_run(src).packets == seq![packet] + spec_run(rest).packets
            &&& spec_run(src).packets.first() == packet
            &&& spec_run(src).packets.drop_first() == spec_run(rest).packets
            &&& header + data + rest == src
            &&& spec_has_room(packet.pri_header) ==> packet.wf()
            &&& spec_has_room(packet.pri_header) ==> packet.spec_into_buffer() == header + data
        }),
{
    let header = src.subrange(0, 6);
    let end = 6 + spec_data_len(header);
    let data = src.subrange(6, end);
    let rest = src.subrange(end, src.len() as int);
    if spec_has_room(spec_from_buffers(header, data)->Ok_0.pri_header) {
        lemma_frame_packet(header, data);
    }
    assert(spec_run(src).packets.drop_first() =~= spec_run(rest).packets);
    assert(header + data + rest =~= src);
}

/// A run that does not start with a frame publishes nothing and does not end
/// cleanly, unless the source is empty.
proof fn lemma_run_ends(src: Seq<u8>)
    requires
        src.len() < 6 || src.len() < 6 + spec_data_len(src.subrange(0, 6)) || spec_from_buffers(
            src.subrange(0, 6),
            src.subrange(6, 6 + spec_data_len(src.subrange(0, 6))),
        ) is Err,
    ensures
        spec_run(src).packets.len() == 0,
        spec_run(src).result is Ok ==> src.len() == 0,
{
}

/// Every packet that a run publishes is well-formed, if its header
/// announces room for all its parts: its data field has the length that the
/// header announces.
pub proof fn lemma_run_packets_wf(src: Seq<u8>, i: int)
    requires
        0 <= i < spec_run(src).packets.len(),
        spec_has_room(spec_run(src).packets[i].pri_header),
    ensures
        spec_run(src).packets[i].wf(),
    decreases src.len(),
{
    let header = src.subrange(0, 6);
    let end = 6 + spec_data_len(header);
    if src.len() >= 6 && src.len() >= end && spec_from_buffers(header, src.subrange(6, end)) is Ok {
        lemma_run_unfolds(src);
        if i > 0 {
            let rest = src.subrange(end, src.len() as int);
            lemma_run_packets_wf(rest, i - 1);
        }
    } else {
        lemma_run_ends(src);
    }
}

/// If a run ends cleanly, and every header announced room for all parts of
/// its packet, the packets published, encoded one after another, are the
/// source.
pub proof fn lemma_run_packets_encode_source(src: Seq<u8>)
    requires
        spec_run(src).result is Ok,
        forall|i: int|
            0 <= i < spec_run(src).packets.len() ==> spec_has_room(
                (#[trigger] spec_run(src).packets[i]).pri_header,
            ),
    ensures
        spec_wire(spec_run(src).packets) == src,
    decreases src.len(),
{
    let header = src.subrange(0, 6);
    let end = 6 + spec_data_len(header);
    if src.len() >= 6 && src.len() >= end && spec_from_buffers(header, src.subrange(6, end)) is Ok {
        lemma_run_unfolds(src);
        let rest = src.subrange(end, src.len() as int);
        let packets = spec_run(src).packets;
        assert(spec_has_room(packets[0].pri_header));
        assert forall|i: int| 0 <= i < spec_run(rest).packets.len() implies spec_has_room(
            (#[trigger] spec_run(rest).packets[i]).pri_header,
        ) by {
            assert(spec_run(rest).packets[i] == packets[i + 1]);
        }
        lemma_run_packets_encode_source(rest);
    } else {
        lemma_run_ends(src);
        assert(src =~= Seq::<u8>::empty());
    }
}

} // verus!
