//! What holds of frames and of whole transfers.

use vstd::prelude::*;
use crate::format::DisplayError;
use crate::frame::{
    chunk_at, chunk_count, command_frames, data_frames, frame_of, payload_of, COMMAND_PREFIX,
    MAX_CMD_CHUNK, MAX_DATA_CHUNK,
};
use crate::transfer::{accepts, Event, Kind, Phase, TransferView};

verus! {

/// The number of chunks is the least number of sixteens that covers the
/// payload: the length divided by sixteen, rounded up.
pub proof fn lemma_chunk_count_rounds_up(n: nat)
    ensures
        chunk_count(n) * MAX_DATA_CHUNK >= n,
        n > 0 ==> (chunk_count(n) - 1) * MAX_DATA_CHUNK < n,
        chunk_count(n) == n / (MAX_DATA_CHUNK as nat) + if n % (MAX_DATA_CHUNK as nat) == 0 {
            0nat
        } else {
            1nat
        },
        n == 0 <==> chunk_count(n) == 0,
{
}

/// Every data frame opens with the control byte; every frame but the last
/// carries sixteen payload bytes, and the last carries what is left, at
/// least one byte.
pub proof fn lemma_data_frame_shape(prefix: u8, payload: Seq<u8>, k: int)
    requires
        0 <= k < chunk_count(payload.len()),
    ensures
        data_frames(prefix, payload)[k][0] == prefix,
        data_frames(prefix, payload)[k].skip(1) == chunk_at(payload, k),
        k + 1 < chunk_count(payload.len()) ==> chunk_at(payload, k).len() == MAX_DATA_CHUNK,
        k + 1 == chunk_count(payload.len()) ==> chunk_at(payload, k).len() == payload.len() - k
            * MAX_DATA_CHUNK,
        1 <= chunk_at(payload, k).len() <= MAX_DATA_CHUNK,
{
    let frame = data_frames(prefix, payload)[k];
    assert(frame == frame_of(prefix, chunk_at(payload, k)));
    assert(frame.skip(1) =~= chunk_at(payload, k));
}

/// The first `count` frames carry the first `count` chunks and nothing else.
proof fn lemma_payload_of_leading_frames(prefix: u8, payload: Seq<u8>, count: nat)
    requires
        count <= chunk_count(payload.len()),
    ensures
        payload_of(data_frames(prefix, payload).take(count as int)) == payload.take(
            if count * MAX_DATA_CHUNK <= payload.len() {
                count * MAX_DATA_CHUNK
            } else {
                payload.len() as int
            },
        ),
    decreases count,
{
    let frames = data_frames(prefix, payload);
    let leading = frames.take(count as int);
    if count == 0 {
        assert(payload.take(0) =~= Seq::<u8>::empty());
    } else {
        lemma_payload_of_leading_frames(prefix, payload, (count - 1) as nat);
        lemma_data_frame_shape(prefix, payload, count - 1);
        assert(leading.drop_last() =~= frames.take(count - 1));
        assert(leading.last() == frames[count - 1]);
        let end = if count * MAX_DATA_CHUNK <= payload.len() {
            count * MAX_DATA_CHUNK
        } else {
            payload.len() as int
        };
        assert(payload.take((count - 1) * MAX_DATA_CHUNK) + chunk_at(payload, count - 1)
            =~= payload.take(end));
    }
}

/// Cutting loses nothing: the frames of a payload carry its bytes, each
/// once and in their order.
pub proof fn lemma_data_frames_carry_payload(prefix: u8, payload: Seq<u8>)
    ensures
        payload_of(data_frames(prefix, payload)) == payload,
        data_frames(prefix, payload).len() == chunk_count(payload.len()),
{
    let frames = data_frames(prefix, payload);
    lemma_payload_of_leading_frames(prefix, payload, chunk_count(payload.len()));
    assert(frames.take(frames.len() as int) =~= frames);
    assert(payload.take(payload.len() as int) =~= payload);
}

/// A payload of at most sixteen bytes takes one frame, which carries all of
/// it; an empty payload takes none.
pub proof fn lemma_short_payload_one_frame(prefix: u8, payload: Seq<u8>)
    requires
        payload.len() <= MAX_DATA_CHUNK,
    ensures
        data_frames(prefix, payload) == if payload.len() == 0 {
            Seq::<Seq<u8>>::empty()
        } else {
            seq![frame_of(prefix, payload)]
        },
{
    if payload.len() > 0 {
        assert(chunk_at(payload, 0) =~= payload);
        assert(data_frames(prefix, payload) =~= seq![frame_of(prefix, payload)]);
    } else {
        assert(data_frames(prefix, payload) =~= Seq::<Seq<u8>>::empty());
    }
}

/// The leading frames of a payload depend on its leading bytes alone.
pub proof fn lemma_leading_frames_of_leading_bytes(
    prefix: u8,
    payload: Seq<u8>,
    len: nat,
    count: nat,
)
    requires
        len <= payload.len(),
        count * MAX_DATA_CHUNK <= len || (len == payload.len() && count <= chunk_count(len)),
    ensures
        count <= chunk_count(len) <= chunk_count(payload.len()),
        data_frames(prefix, payload.take(len as int)).take(count as int) == data_frames(
            prefix,
            payload,
        ).take(count as int),
{
    let head = payload.take(len as int);
    if len == payload.len() {
        assert(head =~= payload);
    } else {
        assert forall|k: int| 0 <= k < count implies chunk_at(head, k) == chunk_at(payload, k) by {
            assert(chunk_at(head, k) =~= chunk_at(payload, k));
        }
        assert(data_frames(prefix, head).take(count as int) =~= data_frames(prefix, payload).take(
            count as int,
        ));
    }
}

/// A well-formed transfer stays well-formed, whatever is reported to it.
pub proof fn lemma_step_keeps_wf(transfer: TransferView, event: Event)
    requires
        transfer.wf(),
    ensures
        transfer.step(event).wf(),
{
    if transfer.phase is AwaitByte {
        assert(transfer.kind == Kind::Data);
    }
}

/// A transfer that is over stays as it is: it takes in no report, asks for
/// no further write, and keeps its result.
pub proof fn lemma_finished_is_final(
    transfer: TransferView,
    bus: Seq<bool>,
    source: Seq<u8>,
    rounds: nat,
)
    requires
        transfer.phase is Finished,
    ensures
        forall|event: Event| transfer.step(event) == transfer,
        transfer.run(bus, source, rounds) == transfer,
    decreases rounds,
{
    if rounds > 0 {
        lemma_finished_is_final(transfer, bus, source, (rounds - 1) as nat);
    }
}

/// A transfer never changes what it sends or where to: every frame of a
/// run goes to the same address, behind the same control byte.
pub proof fn lemma_run_keeps_target(
    transfer: TransferView,
    bus: Seq<bool>,
    source: Seq<u8>,
    rounds: nat,
)
    ensures
        transfer.run(bus, source, rounds).address == transfer.address,
        transfer.run(bus, source, rounds).kind == transfer.kind,
        transfer.run(bus, source, rounds).prefix == transfer.prefix,
    decreases rounds,
{
    if rounds > 0 {
        let next = transfer.step(transfer.reply(bus, source));
        lemma_run_keeps_target(next, bus, source, (rounds - 1) as nat);
    }
}

/// Rounds add up: a run of `first + then` rounds is a run of `first`
/// rounds followed by one of `then` rounds.
pub proof fn lemma_run_in_two_parts(
    transfer: TransferView,
    bus: Seq<bool>,
    source: Seq<u8>,
    first: nat,
    then: nat,
)
    ensures
        transfer.run(bus, source, first + then) == transfer.run(bus, source, first).run(
            bus,
            source,
            then,
        ),
    decreases first,
{
    if first > 0 {
        let next = transfer.step(transfer.reply(bus, source));
        lemma_run_in_two_parts(next, bus, source, (first - 1) as nat, then);
        assert(transfer.run(bus, source, first + then) == next.run(
            bus,
            source,
            (first + then - 1) as nat,
        ));
    }
}

/// Bytes reported in a row, as long as the filling frame has room for
/// them, are so many rounds of a run.
proof fn lemma_feed_is_run(transfer: TransferView, bus: Seq<bool>, source: Seq<u8>, count: nat)
    requires
        transfer.wf(),
        transfer.phase is AwaitByte,
        transfer.payload.len() + count <= source.len(),
        transfer.payload == source.take(transfer.payload.len() as int),
        count <= transfer.room(),
    ensures
        ({
            let len = transfer.payload.len() as int;
            let after = transfer.feed(source.subrange(len, len + count));
            &&& after == transfer.run(bus, source, count)
            &&& after.wf()
            &&& after.payload == source.take(len + count)
            &&& count < transfer.room() ==> after.phase is AwaitByte && after.room()
                == transfer.room() - count
        }),
    decreases count,
{
    let len = transfer.payload.len() as int;
    if count == 0 {
        assert(transfer.payload =~= source.take(len + 0));
    } else {
        let bytes = source.subrange(len, len + count);
        lemma_feed_is_run(transfer, bus, source, (count - 1) as nat);
        assert(bytes.drop_last() =~= source.subrange(len, len + count - 1));
        let before = transfer.feed(bytes.drop_last());
        let after = transfer.feed(bytes);
        assert(after == before.step(Event::Byte(bytes.last())));
        assert(before.reply(bus, source) == Event::Byte(bytes.last()));
        lemma_run_in_two_parts(transfer, bus, source, (count - 1) as nat, 1);
        assert(before.run(bus, source, 1) == before.step(before.reply(bus, source)).run(
            bus,
            source,
            0,
        ));
        lemma_step_keeps_wf(before, Event::Byte(bytes.last()));
        assert(after.payload =~= source.take(len + count));
    }
}

/// Pulling from a source answers the requests for bytes one by one: what
/// [`crate::transfer::Transfer::pull_from`] leaves behind is what as many
/// rounds of a run leave behind as bytes were taken, and one more where the
/// source came to its end.
pub proof fn lemma_pull_answers_requests(transfer: TransferView, bus: Seq<bool>, source: Seq<u8>)
    requires
        transfer.wf(),
        transfer.phase is AwaitByte,
        transfer.payload.len() <= source.len(),
        transfer.payload == source.take(transfer.payload.len() as int),
    ensures
        ({
            let rest = source.skip(transfer.payload.len() as int);
            let room = transfer.room();
            let taken = if rest.len() < room {
                rest.len()
            } else {
                room
            };
            let rounds = if rest.len() < room {
                taken + 1
            } else {
                taken
            };
            transfer.fed(rest.take(taken as int), rest.len() < room) == transfer.run(
                bus,
                source,
                rounds,
            )
        }),
{
    let len = transfer.payload.len() as int;
    let rest = source.skip(len);
    let room = transfer.room();
    let taken = if rest.len() < room {
        rest.len()
    } else {
        room
    };
    lemma_feed_is_run(transfer, bus, source, taken);
    assert(rest.take(taken as int) =~= source.subrange(len, len + taken));
    if rest.len() < room {
        let after = transfer.feed(rest.take(taken as int));
        lemma_run_in_two_parts(transfer, bus, source, taken, 1);
        assert(after.run(bus, source, 1) == after.step(after.reply(bus, source)).run(
            bus,
            source,
            0,
        ));
    }
}

/// The frames that `transfer` takes once its payload is `total`.
spec fn goal(transfer: TransferView, total: Seq<u8>) -> Seq<Seq<u8>> {
    (TransferView { payload: total, ..transfer }).plan()
}

/// How many writes the bus has answered.
spec fn answered(transfer: TransferView) -> nat {
    if transfer.phase is AwaitWrite {
        (transfer.written - 1) as nat
    } else {
        transfer.written
    }
}

/// How many rounds a transfer is from its end, at most, where the bus
/// refuses the write with number `stop`.
spec fn rounds_left(transfer: TransferView, total: Seq<u8>, stop: nat) -> int {
    let writes = if stop < goal(transfer, total).len() {
        stop + 1
    } else {
        goal(transfer, total).len()
    };
    writes - answered(transfer) + if transfer.complete {
        0
    } else {
        total.len() - transfer.payload.len() + 1
    }
}

/// Where a transfer ends: the bus takes the writes before number `stop` and
/// refuses that one, or takes them all where `stop` is their number.
proof fn lemma_run_to_end(
    transfer: TransferView,
    bus: Seq<bool>,
    source: Seq<u8>,
    total: Seq<u8>,
    stop: nat,
    rounds: nat,
)
    requires
        transfer.wf(),
        !(transfer.phase is Finished),
        transfer.complete ==> transfer.payload == total,
        !transfer.complete ==> source == total && transfer.payload.len() <= total.len()
            && transfer.payload == total.take(transfer.payload.len() as int),
        answered(transfer) <= stop <= goal(transfer, total).len(),
        forall|i: int| answered(transfer) <= i < stop ==> accepts(bus, i),
        stop < goal(transfer, total).len() ==> !accepts(bus, stop as int),
        rounds >= rounds_left(transfer, total, stop),
    ensures
        ({
            let end = transfer.run(bus, source, rounds);
            if stop < goal(transfer, total).len() {
                &&& end.phase == Phase::Finished(Err(DisplayError::BusWriteError))
                &&& end.written == stop + 1
                &&& end.issued() == goal(transfer, total).take(stop as int + 1)
            } else {
                &&& end == TransferView {
                    payload: total,
                    complete: true,
                    written: stop,
                    phase: Phase::Finished(Ok(())),
                    ..transfer
                }
                &&& end.issued() == goal(transfer, total)
            }
        }),
    decreases rounds,
{
    let target = goal(transfer, total);
    let len = transfer.payload.len();
    if !transfer.complete {
        lemma_leading_frames_of_leading_bytes(transfer.prefix, total, len, transfer.written);
        assert(transfer.kind == Kind::Data);
    } else {
        assert(transfer.plan() == target);
    }
    let event = transfer.reply(bus, source);
    let next = transfer.step(event);
    lemma_step_keeps_wf(transfer, event);
    assert(transfer.run(bus, source, rounds) == next.run(bus, source, (rounds - 1) as nat));
    if next.phase is Finished {
        lemma_finished_is_final(next, bus, source, (rounds - 1) as nat);
        match transfer.phase {
            Phase::AwaitWrite => {
                if event == Event::Written {
                    assert(next.issued() =~= target);
                }
            },
            _ => {
                assert(next.payload =~= total);
                assert(next.issued() =~= target);
            },
        }
    } else {
        match (transfer.phase, event) {
            (Phase::AwaitByte, Event::Byte(byte)) => {
                assert(next.payload =~= total.take(len as int + 1));
            },
            (Phase::AwaitByte, Event::End) => {
                assert(transfer.payload =~= total);
            },
            _ => {},
        }
        lemma_run_to_end(next, bus, source, total, stop, (rounds - 1) as nat);
    }
}

/// Data that is all at hand and that the bus takes: the transfer asks for
/// one write per chunk, as many as the length divided by sixteen and
/// rounded up, then ends with success. The frames written, taken together,
/// carry the data unchanged.
pub proof fn lemma_buffer_is_delivered(
    address: u8,
    prefix: u8,
    data: Seq<u8>,
    bus: Seq<bool>,
    source: Seq<u8>,
    rounds: nat,
)
    requires
        forall|i: int| 0 <= i < chunk_count(data.len()) ==> accepts(bus, i),
        rounds >= chunk_count(data.len()),
    ensures
        ({
            let end = TransferView::buffer(address, prefix, data).run(bus, source, rounds);
            &&& end.phase == Phase::Finished(Ok(()))
            &&& end.written == chunk_count(data.len())
            &&& end.issued() == data_frames(prefix, data)
            &&& payload_of(end.issued()) == data
        }),
{
    let start = TransferView::buffer(address, prefix, data);
    lemma_data_frames_carry_payload(prefix, data);
    if data.len() == 0 {
        lemma_finished_is_final(start, bus, source, rounds);
        assert(start.issued() =~= data_frames(prefix, data));
    } else {
        lemma_run_to_end(start, bus, source, data, chunk_count(data.len()), rounds);
    }
}

/// Data of at most sixteen bytes, all at hand, takes exactly one write, of
/// the control byte and the data, and its result is that of the write;
/// empty data takes no write at all and succeeds.
pub proof fn lemma_short_buffer_takes_one_write(
    address: u8,
    prefix: u8,
    data: Seq<u8>,
    bus: Seq<bool>,
    source: Seq<u8>,
    rounds: nat,
)
    requires
        data.len() <= MAX_DATA_CHUNK,
        rounds >= 1,
    ensures
        ({
            let end = TransferView::buffer(address, prefix, data).run(bus, source, rounds);
            &&& end.issued() == if data.len() == 0 {
                Seq::<Seq<u8>>::empty()
            } else {
                seq![frame_of(prefix, data)]
            }
            &&& end.phase == Phase::Finished(
                if data.len() == 0 || accepts(bus, 0) {
                    Ok(())
                } else {
                    Err(DisplayError::BusWriteError)
                },
            )
        }),
{
    lemma_short_payload_one_frame(prefix, data);
    if data.len() == 0 || accepts(bus, 0) {
        lemma_buffer_is_delivered(address, prefix, data, bus, source, rounds);
    } else {
        lemma_buffer_stops_at_refused_write(address, prefix, data, bus, source, 1, rounds);
        assert(data_frames(prefix, data).take(1) =~= seq![frame_of(prefix, data)]);
    }
}

/// A refused write ends a transfer of data at hand: where the bus takes
/// the first `k - 1` writes and refuses the `k`-th, exactly the first `k`
/// frames are asked for, and the result is
/// [`DisplayError::BusWriteError`].
pub proof fn lemma_buffer_stops_at_refused_write(
    address: u8,
    prefix: u8,
    data: Seq<u8>,
    bus: Seq<bool>,
    source: Seq<u8>,
    k: nat,
    rounds: nat,
)
    requires
        1 <= k <= chunk_count(data.len()),
        forall|i: int| 0 <= i < k - 1 ==> accepts(bus, i),
        !accepts(bus, k - 1),
        rounds >= k,
    ensures
        ({
            let end = TransferView::buffer(address, prefix, data).run(bus, source, rounds);
            &&& end.phase == Phase::Finished(Err(DisplayError::BusWriteError))
            &&& end.written == k
            &&& end.issued() == data_frames(prefix, data).take(k as int)
        }),
{
    let start = TransferView::buffer(address, prefix, data);
    lemma_run_to_end(start, bus, source, data, (k - 1) as nat, rounds);
}

/// Data that comes byte by byte and that the bus takes is framed as the
/// same bytes at hand are: one write per chunk of sixteen, the last one
/// shorter where bytes are left over, none after a last full chunk, and
/// none at all where no byte comes.
pub proof fn lemma_stream_is_delivered(
    address: u8,
    prefix: u8,
    source: Seq<u8>,
    bus: Seq<bool>,
    rounds: nat,
)
    requires
        forall|i: int| 0 <= i < chunk_count(source.len()) ==> accepts(bus, i),
        rounds >= source.len() + 1 + chunk_count(source.len()),
    ensures
        ({
            let end = TransferView::stream(address, prefix).run(bus, source, rounds);
            &&& end.phase == Phase::Finished(Ok(()))
            &&& end.written == chunk_count(source.len())
            &&& end.issued() == data_frames(prefix, source)
            &&& payload_of(end.issued()) == source
            &&& end == TransferView::buffer(address, prefix, source).run(bus, source, rounds)
        }),
{
    let start = TransferView::stream(address, prefix);
    assert(start.payload =~= source.take(0));
    lemma_data_frames_carry_payload(prefix, source);
    lemma_run_to_end(start, bus, source, source, chunk_count(source.len()), rounds);
    let at_hand = TransferView::buffer(address, prefix, source);
    if source.len() == 0 {
        lemma_finished_is_final(at_hand, bus, source, rounds);
    } else {
        lemma_run_to_end(at_hand, bus, source, source, chunk_count(source.len()), rounds);
    }
}

/// The number of the first write that the bus refuses among those with a
/// number below `limit`, or `limit` where it takes them all.
pub open spec fn first_refused(bus: Seq<bool>, limit: nat) -> nat
    decreases limit,
{
    if limit == 0 {
        0
    } else {
        let before = first_refused(bus, (limit - 1) as nat);
        if before < limit - 1 || !accepts(bus, limit - 1) {
            before
        } else {
            limit
        }
    }
}

/// The bus takes every write before the first one that it refuses.
pub proof fn lemma_first_refused(bus: Seq<bool>, limit: nat)
    ensures
        first_refused(bus, limit) <= limit,
        forall|i: int| 0 <= i < first_refused(bus, limit) ==> accepts(bus, i),
        first_refused(bus, limit) < limit ==> !accepts(bus, first_refused(bus, limit) as int),
    decreases limit,
{
    if limit > 0 {
        lemma_first_refused(bus, (limit - 1) as nat);
    }
}

/// Whatever the bus does, data that comes byte by byte is treated as the
/// same bytes at hand are: the same frames are asked for, in the same
/// order, up to the frame that the bus refuses, and the result is the same.
pub proof fn lemma_stream_matches_buffer(
    address: u8,
    prefix: u8,
    source: Seq<u8>,
    bus: Seq<bool>,
    rounds: nat,
)
    requires
        rounds >= source.len() + 1 + chunk_count(source.len()),
    ensures
        ({
            let frames = data_frames(prefix, source);
            let stop = first_refused(bus, frames.len());
            let streamed = TransferView::stream(address, prefix).run(bus, source, rounds);
            let at_hand = TransferView::buffer(address, prefix, source).run(bus, source, rounds);
            &&& streamed.phase == at_hand.phase
            &&& streamed.issued() == at_hand.issued()
            &&& streamed.phase == Phase::Finished(
                if stop == frames.len() {
                    Ok(())
                } else {
                    Err(DisplayError::BusWriteError)
                },
            )
            &&& streamed.issued() == frames.take(
                if stop == frames.len() {
                    stop as int
                } else {
                    stop as int + 1
                },
            )
        }),
{
    let frames = data_frames(prefix, source);
    let stop = first_refused(bus, frames.len());
    lemma_first_refused(bus, frames.len());
    if stop == frames.len() {
        lemma_stream_is_delivered(address, prefix, source, bus, rounds);
        assert(frames.take(stop as int) =~= frames);
    } else {
        lemma_stream_stops_at_refused_write(address, prefix, source, bus, stop + 1, rounds);
        lemma_buffer_stops_at_refused_write(
            address,
            prefix,
            source,
            bus,
            source,
            stop + 1,
            rounds,
        );
    }
}

/// A refused write ends a transfer of data that comes byte by byte, as it
/// ends one of data at hand: exactly the first `k` frames are asked for,
/// and the result is [`DisplayError::BusWriteError`].
pub proof fn lemma_stream_stops_at_refused_write(
    address: u8,
    prefix: u8,
    source: Seq<u8>,
    bus: Seq<bool>,
    k: nat,
    rounds: nat,
)
    requires
        1 <= k <= chunk_count(source.len()),
        forall|i: int| 0 <= i < k - 1 ==> accepts(bus, i),
        !accepts(bus, k - 1),
        rounds >= source.len() + 1 + k,
    ensures
        ({
            let end = TransferView::stream(address, prefix).run(bus, source, rounds);
            &&& end.phase == Phase::Finished(Err(DisplayError::BusWriteError))
            &&& end.written == k
            &&& end.issued() == data_frames(prefix, source).take(k as int)
        }),
{
    let start = TransferView::stream(address, prefix);
    assert(start.payload =~= source.take(0));
    lemma_run_to_end(start, bus, source, source, (k - 1) as nat, rounds);
}

/// Commands go out in exactly one write: the control byte `0x00`, then the
/// commands. The result is that of the write.
pub proof fn lemma_commands_take_one_write(
    address: u8,
    commands: Seq<u8>,
    bus: Seq<bool>,
    source: Seq<u8>,
    rounds: nat,
)
    requires
        commands.len() <= MAX_CMD_CHUNK,
        rounds >= 1,
    ensures
        ({
            let end = TransferView::commands(address, commands).run(bus, source, rounds);
            &&& end.written == 1
            &&& end.issued() == seq![frame_of(COMMAND_PREFIX, commands)]
            &&& end.issued()[0][0] == 0x00
            &&& end.issued()[0].skip(1) == commands
            &&& end.phase == Phase::Finished(
                if accepts(bus, 0) {
                    Ok(())
                } else {
                    Err(DisplayError::BusWriteError)
                },
            )
        }),
{
    let start = TransferView::commands(address, commands);
    let frame = frame_of(COMMAND_PREFIX, commands);
    assert(frame.skip(1) =~= commands);
    assert(command_frames(commands).take(1) =~= seq![frame]);
    if accepts(bus, 0) {
        lemma_run_to_end(start, bus, source, commands, 1, rounds);
    } else {
        lemma_run_to_end(start, bus, source, commands, 0, rounds);
    }
}

/// A payload in a shape that is not framed takes no write: the transfer is
/// over from the start with [`DisplayError::DataFormatNotImplemented`].
pub proof fn lemma_rejected_takes_no_write(
    address: u8,
    kind: Kind,
    prefix: u8,
    bus: Seq<bool>,
    source: Seq<u8>,
    rounds: nat,
)
    ensures
        ({
            let end = TransferView::rejected(address, kind, prefix).run(bus, source, rounds);
            &&& end.written == 0
            &&& end.issued() == Seq::<Seq<u8>>::empty()
            &&& end.phase == Phase::Finished(Err(DisplayError::DataFormatNotImplemented))
        }),
{
    let start = TransferView::rejected(address, kind, prefix);
    lemma_finished_is_final(start, bus, source, rounds);
    assert(start.issued() =~= Seq::<Seq<u8>>::empty());
}

} // verus!
