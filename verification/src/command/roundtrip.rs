//! What is written is what is read: decoding undoes encoding, for frames,
//! commands and responses, and for a whole exchange.

use vstd::prelude::*;
use vstd::bytes::{
    lemma_auto_spec_u32_to_from_le_bytes, lemma_auto_spec_u64_to_from_le_bytes,
    spec_u32_to_le_bytes, spec_u64_to_le_bytes,
};
use crate::command::pipe::{decoded, received, reply_frame, ListenerStateView, TransportError};
use crate::command::wire::{
    command_bytes, encodable, entries_bytes, entry_bytes, framed, max_len, parse_command,
    parse_entries, parse_entry, parse_flag, parse_flags, parse_path, parse_print, parse_remote,
    flag_byte, parse_response, parse_status, parse_u32, parse_u64, print_bytes, remote_bytes,
    response_bytes, status_byte, unframed, ResponseView, WireError,
};
use crate::indexer::entry::EntryView;
use crate::CommandView;

verus! {

/// Taking a frame apart gives back the payload it was made of.
pub proof fn law_frame_round_trip(payload: Seq<u8>)
    requires
        payload.len() <= max_len(),
    ensures
        unframed(framed(payload)) == Ok::<Seq<u8>, WireError>(payload),
{
    lemma_auto_spec_u32_to_from_le_bytes();
    let bytes = framed(payload);
    let head = spec_u32_to_le_bytes(payload.len() as u32);
    assert(bytes.subrange(0, 4) =~= head);
    assert(bytes.subrange(4, bytes.len() as int) =~= payload);
}

/// Decoding a command's payload gives back the command.
pub proof fn law_command_round_trip(command: CommandView)
    ensures
        parse_command(command_bytes(command)) == Ok::<CommandView, WireError>(command),
{
}

/// The four-byte number written at `at` is the one read there.
proof fn lemma_u32_at(bytes: Seq<u8>, at: int, value: u32)
    requires
        0 <= at,
        at + 4 <= bytes.len(),
        bytes.subrange(at, at + 4) == spec_u32_to_le_bytes(value),
    ensures
        parse_u32(bytes, at) == Some((value, at + 4)),
{
    lemma_auto_spec_u32_to_from_le_bytes();
    assert(spec_u32_to_le_bytes(value).len() == 4);
}

/// A piece of what was written at `at` stands in the bytes where it
/// stands in the writing.
proof fn lemma_piece(bytes: Seq<u8>, at: int, written: Seq<u8>, offset: int, piece: Seq<u8>)
    requires
        0 <= at,
        at + written.len() <= bytes.len(),
        bytes.subrange(at, at + written.len()) == written,
        0 <= offset,
        offset + piece.len() <= written.len(),
        written.subrange(offset, offset + piece.len()) == piece,
    ensures
        bytes.subrange(at + offset, at + offset + piece.len()) == piece,
{
    assert forall|k: int| 0 <= k < piece.len() implies bytes[at + offset + k] == piece[k] by {
        assert(bytes.subrange(at, at + written.len())[offset + k] == bytes[at + offset + k]);
        assert(written.subrange(offset, offset + piece.len())[k] == written[offset + k]);
    }
    assert(bytes.subrange(at + offset, at + offset + piece.len()) =~= piece);
}

/// The eight-byte number written at `at` is the one read there.
proof fn lemma_u64_at(bytes: Seq<u8>, at: int, value: u64)
    requires
        0 <= at,
        at + 8 <= bytes.len(),
        bytes.subrange(at, at + 8) == spec_u64_to_le_bytes(value),
    ensures
        parse_u64(bytes, at) == Some((value, at + 8)),
{
    lemma_auto_spec_u64_to_from_le_bytes();
}

/// The length of an entry's bytes.
pub open spec fn entry_len(entry: EntryView) -> int {
    4 + entry.path.len() + 4 + (if entry.remote_id is Some {
        9int
    } else {
        1int
    }) + 24
}

/// An entry's bytes are as long as [`entry_len`] says.
proof fn lemma_entry_len(entry: EntryView)
    ensures
        entry_bytes(entry).len() == entry_len(entry),
        spec_u32_to_le_bytes(entry.path.len() as u32).len() == 4,
        remote_bytes(entry.remote_id).len() == if entry.remote_id is Some {
            9int
        } else {
            1int
        },
        print_bytes(entry.fingerprint).len() == 24,
{
    lemma_auto_spec_u32_to_from_le_bytes();
    lemma_auto_spec_u64_to_from_le_bytes();
    assert(spec_u32_to_le_bytes(entry.path.len() as u32).len() == 4);
}

/// The entry written at `at` is the one read there.
proof fn lemma_entry_at(bytes: Seq<u8>, at: int, entry: EntryView)
    requires
        0 <= at,
        at + entry_bytes(entry).len() <= bytes.len(),
        bytes.subrange(at, at + entry_bytes(entry).len()) == entry_bytes(entry),
        entry.path.len() <= max_len(),
    ensures
        parse_entry(bytes, at) == Some((entry, at + entry_bytes(entry).len())),
{
    lemma_auto_spec_u32_to_from_le_bytes();
    lemma_auto_spec_u64_to_from_le_bytes();
    lemma_entry_len(entry);
    let written = entry_bytes(entry);
    let len = entry.path.len() as int;
    let head = spec_u32_to_le_bytes(entry.path.len() as u32);
    let marks = seq![
        status_byte(entry.status),
        flag_byte(entry.deleted),
        flag_byte(entry.placeholder),
        flag_byte(entry.superseded),
    ];
    let remote = remote_bytes(entry.remote_id);
    let print = print_bytes(entry.fingerprint);
    assert(written == head + entry.path + marks + remote + print);
    // The path, behind its length.
    assert(written.subrange(0, 4) =~= head);
    lemma_piece(bytes, at, written, 0, head);
    lemma_u32_at(bytes, at, entry.path.len() as u32);
    assert(written.subrange(4, 4 + len) =~= entry.path);
    lemma_piece(bytes, at, written, 4, entry.path);
    assert(parse_path(bytes, at) == Some((entry.path, at + 4 + len)));
    // The status and the three flags.
    let a = at + 4 + len;
    assert(written.subrange(4 + len, 4 + len + 4) =~= marks);
    lemma_piece(bytes, at, written, 4 + len, marks);
    let read = bytes.subrange(a, a + 4);
    assert(read == marks);
    assert(bytes[a] == read[0] && bytes[a + 1] == read[1] && bytes[a + 2] == read[2] && bytes[a
        + 3] == read[3]);
    assert(parse_status(bytes, a) == Some((entry.status, a + 1)));
    assert(parse_flag(bytes, a + 1) == Some((entry.deleted, a + 2)));
    assert(parse_flag(bytes, a + 2) == Some((entry.placeholder, a + 3)));
    assert(parse_flag(bytes, a + 3) == Some((entry.superseded, a + 4)));
    assert(parse_flags(bytes, a + 1) == Some(
        ((entry.deleted, entry.placeholder, entry.superseded), a + 4),
    ));
    // The remote identifier.
    let c = a + 4;
    let d = c + remote.len();
    assert(written.subrange(8 + len, 8 + len + remote.len()) =~= remote);
    lemma_piece(bytes, at, written, 8 + len, remote);
    let seen = bytes.subrange(c, d);
    assert(seen == remote);
    assert(bytes[c] == seen[0]);
    match entry.remote_id {
        Some(id) => {
            let number = spec_u64_to_le_bytes(id);
            assert(remote.subrange(1, 9) =~= number);
            lemma_piece(bytes, c, remote, 1, number);
            lemma_u64_at(bytes, c + 1, id);
        },
        None => {},
    }
    assert(parse_remote(bytes, c) == Some((entry.remote_id, d)));
    // The fingerprint.
    assert(written.subrange(8 + len + remote.len(), 8 + len + remote.len() + 24) =~= print);
    lemma_piece(bytes, at, written, 8 + len + remote.len(), print);
    let hash = spec_u64_to_le_bytes(entry.fingerprint.hash);
    let size = spec_u64_to_le_bytes(entry.fingerprint.size);
    let modified = spec_u64_to_le_bytes(entry.fingerprint.modified);
    assert(print.subrange(0, 8) =~= hash);
    assert(print.subrange(8, 16) =~= size);
    assert(print.subrange(16, 24) =~= modified);
    lemma_piece(bytes, d, print, 0, hash);
    lemma_piece(bytes, d, print, 8, size);
    lemma_piece(bytes, d, print, 16, modified);
    lemma_u64_at(bytes, d, entry.fingerprint.hash);
    lemma_u64_at(bytes, d + 8, entry.fingerprint.size);
    lemma_u64_at(bytes, d + 16, entry.fingerprint.modified);
    assert(parse_print(bytes, d) == Some((entry.fingerprint, d + 24)));
}

/// The entries written at `at` are the ones read there.
proof fn lemma_entries_at(bytes: Seq<u8>, at: int, entries: Seq<EntryView>)
    requires
        0 <= at,
        at + entries_bytes(entries).len() <= bytes.len(),
        bytes.subrange(at, at + entries_bytes(entries).len()) == entries_bytes(entries),
        forall|i: int| 0 <= i < entries.len() ==> (#[trigger] entries[i]).path.len() <= max_len(),
    ensures
        parse_entries(bytes, at, entries.len()) == Some(
            (entries, at + entries_bytes(entries).len()),
        ),
    decreases entries.len(),
{
    if entries.len() == 0 {
        assert(entries =~= Seq::<EntryView>::empty());
    } else {
        let earlier = entries.drop_last();
        let last = entries.last();
        let head = entries_bytes(earlier);
        let tail = entry_bytes(last);
        let written = entries_bytes(entries);
        assert(written == head + tail);
        assert(bytes.subrange(at, at + head.len()) =~= head) by {
            assert forall|k: int| 0 <= k < head.len() implies bytes[at + k] == head[k] by {
                assert(bytes.subrange(at, at + written.len())[k] == bytes[at + k]);
            }
        }
        assert forall|i: int| 0 <= i < earlier.len() implies (#[trigger] earlier[i]).path.len()
            <= max_len() by {
            assert(earlier[i] == entries[i]);
        }
        lemma_entries_at(bytes, at, earlier);
        let next = at + head.len();
        assert(bytes.subrange(next, next + tail.len()) =~= tail) by {
            assert forall|k: int| 0 <= k < tail.len() implies bytes[next + k] == tail[k] by {
                assert(bytes.subrange(at, at + written.len())[head.len() + k] == bytes[next + k]);
            }
        }
        lemma_entry_at(bytes, next, last);
        assert(earlier.push(last) =~= entries);
    }
}

/// Decoding a response's payload gives back the response, as long as its
/// lengths fit the format.
pub proof fn law_response_round_trip(response: ResponseView)
    requires
        encodable(response),
    ensures
        parse_response(response_bytes(response)) == Ok::<ResponseView, WireError>(response),
{
    lemma_auto_spec_u32_to_from_le_bytes();
    let payload = response_bytes(response);
    match response {
        ResponseView::Listing(entries) => {
            let count = spec_u32_to_le_bytes(entries.len() as u32);
            let body = entries_bytes(entries);
            assert(payload.subrange(1, 5) =~= count);
            lemma_u32_at(payload, 1, entries.len() as u32);
            assert(payload.subrange(5, 5 + body.len() as int) =~= body);
            lemma_entries_at(payload, 5, entries);
        },
        ResponseView::Error { kind, message } => {
            assert(payload.subrange(2, payload.len() as int) =~= message);
        },
    }
}

/// A whole exchange carries the command to the daemon and the response
/// back: the listener decodes the frame the writer sent to the command
/// it stands for, and the writer takes from the listener's reply the
/// response the handler gave, as long as the response fits the format.
pub proof fn law_exchange_round_trip(command: CommandView, response: ResponseView)
    requires
        encodable(response),
        response_bytes(response).len() <= max_len(),
    ensures
        decoded(framed(command_bytes(command))) == ListenerStateView::Dispatching(command),
        received(reply_frame(response)) == Ok::<ResponseView, TransportError>(response),
{
    law_frame_round_trip(command_bytes(command));
    law_command_round_trip(command);
    law_frame_round_trip(response_bytes(response));
    law_response_round_trip(response);
}

/// A reply that was cut short on the way is a connection error: the
/// writer never takes a response from part of a frame.
pub proof fn law_cut_reply_is_connection_error(payload: Seq<u8>, kept: int)
    requires
        payload.len() <= max_len(),
        0 <= kept < framed(payload).len(),
    ensures
        received(framed(payload).take(kept)) == Err::<ResponseView, TransportError>(
            TransportError::Connection,
        ),
{
    lemma_auto_spec_u32_to_from_le_bytes();
    let whole = framed(payload);
    let cut = whole.take(kept);
    if kept >= 4 {
        assert(cut.subrange(0, 4) =~= spec_u32_to_le_bytes(payload.len() as u32));
    }
}

} // verus!
