//! The bytes on the control socket.
//!
//! A frame is a length (four bytes, little-endian) followed by that many
//! bytes of payload. A command payload is one tag byte. A response payload
//! is a tag byte followed by a listing or by a structured error.

use vstd::prelude::*;
use vstd::bytes::{
    spec_u32_from_le_bytes, spec_u32_to_le_bytes, spec_u64_from_le_bytes, spec_u64_to_le_bytes,
    u32_from_le_bytes, u32_to_le_bytes, u64_from_le_bytes, u64_to_le_bytes,
};
use vstd::slice::{slice_subrange, slice_to_vec};
use crate::indexer::entry::{EntryView, Fingerprint, IndexEntry, SyncStatus};
use crate::indexer::index::views;
use crate::{Command, CommandView};
use crate::cli::list::ListCommand;

verus! {

/// Tag of the `list` command.
pub const TAG_LIST: u8 = 1;

/// Tag of a listing response.
pub const TAG_LISTING: u8 = 0;

/// Tag of an error response.
pub const TAG_ERROR: u8 = 1;

/// Why the daemon could not answer a command.
#[derive(Clone, Copy, Debug, PartialEq, Eq, Structural)]
pub enum Failure {
    /// The command could not be decoded.
    Decode,
    /// The command was understood and its execution failed.
    Handler,
}

/// The daemon's reply to one command.
#[derive(Debug, PartialEq, Eq)]
pub enum Response {
    /// Every tracked entry, in index order.
    Listing(Vec<IndexEntry>),
    /// A structured error: its kind and a description.
    Error { kind: Failure, message: Vec<u8> },
}

/// Mathematical value of a [`Response`].
pub enum ResponseView {
    Listing(Seq<EntryView>),
    Error { kind: Failure, message: Seq<u8> },
}

impl View for Response {
    type V = ResponseView;

    open spec fn view(&self) -> ResponseView {
        match *self {
            Response::Listing(entries) => ResponseView::Listing(views(entries@)),
            Response::Error { kind, message } => ResponseView::Error { kind, message: message@ },
        }
    }
}

/// Why bytes were not taken for a frame or a payload, or a value not
/// turned into bytes.
#[derive(Clone, Copy, Debug, PartialEq, Eq, Structural)]
pub enum WireError {
    /// The bytes end before the frame does.
    Truncated,
    /// Bytes follow the end of the frame.
    Trailing,
    /// The payload is not one this protocol knows.
    Malformed,
    /// A length does not fit the four bytes the format gives it.
    TooLarge,
}

/// The largest length the format can express.
pub open spec fn max_len() -> int {
    0xffff_ffff
}

/// A payload with its length in front.
pub open spec fn framed(payload: Seq<u8>) -> Seq<u8> {
    spec_u32_to_le_bytes(payload.len() as u32) + payload
}

/// The payload of a frame, where the bytes are exactly one frame.
pub open spec fn unframed(bytes: Seq<u8>) -> Result<Seq<u8>, WireError> {
    if bytes.len() < 4 {
        Err(WireError::Truncated)
    } else {
        let len = spec_u32_from_le_bytes(bytes.subrange(0, 4));
        if bytes.len() < 4 + len {
            Err(WireError::Truncated)
        } else if bytes.len() > 4 + len {
            Err(WireError::Trailing)
        } else {
            Ok(bytes.subrange(4, bytes.len() as int))
        }
    }
}

/// The byte for a yes or a no.
pub open spec fn flag_byte(flag: bool) -> u8 {
    if flag {
        1
    } else {
        0
    }
}

/// The byte for a status.
pub open spec fn status_byte(status: SyncStatus) -> u8 {
    match status {
        SyncStatus::Unsynced => 0,
        SyncStatus::Pending => 1,
        SyncStatus::Synced => 2,
        SyncStatus::Conflicted => 3,
    }
}

/// The byte for a kind of failure.
pub open spec fn failure_byte(kind: Failure) -> u8 {
    match kind {
        Failure::Decode => 0,
        Failure::Handler => 1,
    }
}

/// The bytes of a remote identifier that may be absent.
pub open spec fn remote_bytes(remote_id: Option<u64>) -> Seq<u8> {
    match remote_id {
        Some(id) => seq![1u8] + spec_u64_to_le_bytes(id),
        None => seq![0u8],
    }
}

/// The bytes of a fingerprint.
pub open spec fn print_bytes(fingerprint: Fingerprint) -> Seq<u8> {
    spec_u64_to_le_bytes(fingerprint.hash) + spec_u64_to_le_bytes(fingerprint.size)
        + spec_u64_to_le_bytes(fingerprint.modified)
}

/// The bytes of one entry: the length of its path, the path, its status,
/// its three flags, its remote identifier and its fingerprint.
pub open spec fn entry_bytes(entry: EntryView) -> Seq<u8> {
    spec_u32_to_le_bytes(entry.path.len() as u32) + entry.path + seq![
        status_byte(entry.status),
        flag_byte(entry.deleted),
        flag_byte(entry.placeholder),
        flag_byte(entry.superseded),
    ] + remote_bytes(entry.remote_id) + print_bytes(entry.fingerprint)
}

/// The bytes of a run of entries, one after the other.
pub open spec fn entries_bytes(entries: Seq<EntryView>) -> Seq<u8>
    decreases entries.len(),
{
    if entries.len() == 0 {
        Seq::empty()
    } else {
        entries_bytes(entries.drop_last()) + entry_bytes(entries.last())
    }
}

/// The payload of a response.
pub open spec fn response_bytes(response: ResponseView) -> Seq<u8> {
    match response {
        ResponseView::Listing(entries) => seq![TAG_LISTING] + spec_u32_to_le_bytes(
            entries.len() as u32,
        ) + entries_bytes(entries),
        ResponseView::Error { kind, message } => seq![TAG_ERROR, failure_byte(kind)] + message,
    }
}

/// The payload of a command.
pub open spec fn command_bytes(command: CommandView) -> Seq<u8> {
    match command {
        CommandView::List => seq![TAG_LIST],
    }
}

/// Whether every length in a response fits the format.
pub open spec fn encodable(response: ResponseView) -> bool {
    match response {
        ResponseView::Listing(entries) => {
            &&& entries.len() <= max_len()
            &&& forall|i: int| 0 <= i < entries.len() ==> (#[trigger] entries[i]).path.len() <= max_len()
        },
        ResponseView::Error { .. } => true,
    }
}

/// The byte at `at` and the position after it.
pub open spec fn parse_byte(bytes: Seq<u8>, at: int) -> Option<(u8, int)> {
    if 0 <= at < bytes.len() {
        Some((bytes[at], at + 1))
    } else {
        None
    }
}

/// The four-byte number at `at` and the position after it.
pub open spec fn parse_u32(bytes: Seq<u8>, at: int) -> Option<(u32, int)> {
    if 0 <= at && at + 4 <= bytes.len() {
        Some((spec_u32_from_le_bytes(bytes.subrange(at, at + 4)), at + 4))
    } else {
        None
    }
}

/// The eight-byte number at `at` and the position after it.
pub open spec fn parse_u64(bytes: Seq<u8>, at: int) -> Option<(u64, int)> {
    if 0 <= at && at + 8 <= bytes.len() {
        Some((spec_u64_from_le_bytes(bytes.subrange(at, at + 8)), at + 8))
    } else {
        None
    }
}

/// The yes or no at `at`.
pub open spec fn parse_flag(bytes: Seq<u8>, at: int) -> Option<(bool, int)> {
    match parse_byte(bytes, at) {
        Some((byte, next)) => if byte == 0 {
            Some((false, next))
        } else if byte == 1 {
            Some((true, next))
        } else {
            None
        },
        None => None,
    }
}

/// The status at `at`.
pub open spec fn parse_status(bytes: Seq<u8>, at: int) -> Option<(SyncStatus, int)> {
    match parse_byte(bytes, at) {
        Some((byte, next)) => if byte == 0 {
            Some((SyncStatus::Unsynced, next))
        } else if byte == 1 {
            Some((SyncStatus::Pending, next))
        } else if byte == 2 {
            Some((SyncStatus::Synced, next))
        } else if byte == 3 {
            Some((SyncStatus::Conflicted, next))
        } else {
            None
        },
        None => None,
    }
}

/// The remote identifier at `at`, present or absent.
pub open spec fn parse_remote(bytes: Seq<u8>, at: int) -> Option<(Option<u64>, int)> {
    match parse_flag(bytes, at) {
        Some((present, next)) => if present {
            match parse_u64(bytes, next) {
                Some((id, end)) => Some((Some(id), end)),
                None => None,
            }
        } else {
            Some((None, next))
        },
        None => None,
    }
}

/// The fingerprint at `at`.
pub open spec fn parse_print(bytes: Seq<u8>, at: int) -> Option<(Fingerprint, int)> {
    match parse_u64(bytes, at) {
        Some((hash, a)) => match parse_u64(bytes, a) {
            Some((size, b)) => match parse_u64(bytes, b) {
                Some((modified, end)) => Some((Fingerprint { hash, size, modified }, end)),
                None => None,
            },
            None => None,
        },
        None => None,
    }
}

/// The length-prefixed path at `at`.
pub open spec fn parse_path(bytes: Seq<u8>, at: int) -> Option<(Seq<u8>, int)> {
    match parse_u32(bytes, at) {
        Some((len, start)) => if start + len <= bytes.len() {
            Some((bytes.subrange(start, start + len), start + len))
        } else {
            None
        },
        None => None,
    }
}

/// The three flags at `at`: deleted, placeholder, superseded.
pub open spec fn parse_flags(bytes: Seq<u8>, at: int) -> Option<((bool, bool, bool), int)> {
    match parse_flag(bytes, at) {
        Some((deleted, a)) => match parse_flag(bytes, a) {
            Some((placeholder, b)) => match parse_flag(bytes, b) {
                Some((superseded, end)) => Some(((deleted, placeholder, superseded), end)),
                None => None,
            },
            None => None,
        },
        None => None,
    }
}

/// The entry at `at`.
pub open spec fn parse_entry(bytes: Seq<u8>, at: int) -> Option<(EntryView, int)> {
    match parse_path(bytes, at) {
        Some((path, a)) => match parse_status(bytes, a) {
            Some((status, b)) => match parse_flags(bytes, b) {
                Some((flags, c)) => match parse_remote(bytes, c) {
                    Some((remote_id, d)) => match parse_print(bytes, d) {
                        Some((fingerprint, end)) => Some(
                            (
                                EntryView {
                                    path,
                                    fingerprint,
                                    remote_id,
                                    status,
                                    deleted: flags.0,
                                    placeholder: flags.1,
                                    superseded: flags.2,
                                },
                                end,
                            ),
                        ),
                        None => None,
                    },
                    None => None,
                },
                None => None,
            },
            None => None,
        },
        None => None,
    }
}

/// The `count` entries that start at `at`.
pub open spec fn parse_entries(bytes: Seq<u8>, at: int, count: nat) -> Option<
    (Seq<EntryView>, int),
>
    decreases count,
{
    if count == 0 {
        Some((Seq::empty(), at))
    } else {
        match parse_entries(bytes, at, (count - 1) as nat) {
            Some((earlier, next)) => match parse_entry(bytes, next) {
                Some((entry, end)) => Some((earlier.push(entry), end)),
                None => None,
            },
            None => None,
        }
    }
}

/// The response a payload stands for.
pub open spec fn parse_response(payload: Seq<u8>) -> Result<ResponseView, WireError> {
    if payload.len() == 0 {
        Err(WireError::Malformed)
    } else if payload[0] == TAG_LISTING {
        match parse_u32(payload, 1) {
            Some((count, start)) => match parse_entries(payload, start, count as nat) {
                Some((entries, end)) => if end == payload.len() {
                    Ok(ResponseView::Listing(entries))
                } else {
                    Err(WireError::Malformed)
                },
                None => Err(WireError::Malformed),
            },
            None => Err(WireError::Malformed),
        }
    } else if payload[0] == TAG_ERROR {
        if payload.len() >= 2 && payload[1] == 0 {
            Ok(
                ResponseView::Error {
                    kind: Failure::Decode,
                    message: payload.subrange(2, payload.len() as int),
                },
            )
        } else if payload.len() >= 2 && payload[1] == 1 {
            Ok(
                ResponseView::Error {
                    kind: Failure::Handler,
                    message: payload.subrange(2, payload.len() as int),
                },
            )
        } else {
            Err(WireError::Malformed)
        }
    } else {
        Err(WireError::Malformed)
    }
}

/// The command a payload stands for.
pub open spec fn parse_command(payload: Seq<u8>) -> Result<CommandView, WireError> {
    if payload.len() == 1 && payload[0] == TAG_LIST {
        Ok(CommandView::List)
    } else {
        Err(WireError::Malformed)
    }
}

/// Appends `more` to `out`.
fn put(out: &mut Vec<u8>, more: &Vec<u8>)
    ensures
        final(out)@ == old(out)@ + more@,
{
    let mut i: usize = 0;
    while i < more.len()
        invariant
            i <= more.len(),
            out@ == old(out)@ + more@.take(i as int),
        decreases more.len() - i,
    {
        out.push(more[i]);
        assert(out@ =~= old(out)@ + more@.take(i as int + 1));
        i += 1;
    }
    assert(more@.take(i as int) =~= more@);
}

/// Puts a payload into a frame. Fails with `TooLarge` exactly where the
/// payload is longer than the format can say.
pub fn frame(payload: &Vec<u8>) -> (bytes: Result<Vec<u8>, WireError>)
    ensures
        match bytes {
            Ok(bytes) => payload@.len() <= max_len() && bytes@ == framed(payload@),
            Err(error) => payload@.len() > max_len() && error == WireError::TooLarge,
        },
{
    if payload.len() > 0xffff_ffff {
        return Err(WireError::TooLarge);
    }
    let mut bytes = u32_to_le_bytes(payload.len() as u32);
    put(&mut bytes, payload);
    Ok(bytes)
}

/// Takes the payload out of a frame. The bytes must be exactly one frame:
/// `Truncated` where they end early, `Trailing` where they go on.
pub fn unframe(bytes: &Vec<u8>) -> (payload: Result<Vec<u8>, WireError>)
    ensures
        match payload {
            Ok(payload) => unframed(bytes@) == Ok::<Seq<u8>, WireError>(payload@),
            Err(error) => unframed(bytes@) == Err::<Seq<u8>, WireError>(error),
        },
{
    if bytes.len() < 4 {
        return Err(WireError::Truncated);
    }
    let len = u32_from_le_bytes(slice_subrange(bytes.as_slice(), 0, 4));
    let rest = bytes.len() - 4;
    if rest < len as usize {
        Err(WireError::Truncated)
    } else if rest > len as usize {
        Err(WireError::Trailing)
    } else {
        Ok(slice_to_vec(slice_subrange(bytes.as_slice(), 4, bytes.len())))
    }
}

/// The payload of a command.
pub fn encode_command(command: &Command) -> (payload: Vec<u8>)
    ensures
        payload@ == command_bytes(command@),
{
    let mut payload: Vec<u8> = Vec::new();
    match command {
        Command::List(_) => payload.push(TAG_LIST),
    }
    assert(payload@ =~= command_bytes(command@));
    payload
}

/// The command a payload stands for; `Malformed` for any other payload.
pub fn decode_command(payload: &Vec<u8>) -> (command: Result<Command, WireError>)
    ensures
        match command {
            Ok(command) => parse_command(payload@) == Ok::<CommandView, WireError>(command@),
            Err(error) => parse_command(payload@) == Err::<CommandView, WireError>(error),
        },
{
    if payload.len() == 1 && payload[0] == TAG_LIST {
        Ok(Command::List(ListCommand {  }))
    } else {
        Err(WireError::Malformed)
    }
}

fn flag(set: bool) -> (byte: u8)
    ensures
        byte == flag_byte(set),
{
    if set {
        1
    } else {
        0
    }
}

/// Appends the bytes of one entry to `out`.
fn put_entry(out: &mut Vec<u8>, entry: &IndexEntry)
    requires
        entry@.path.len() <= max_len(),
    ensures
        final(out)@ == old(out)@ + entry_bytes(entry@),
{
    let len = u32_to_le_bytes(entry.path.len() as u32);
    put(out, &len);
    put(out, &entry.path);
    out.push(
        match entry.status {
            SyncStatus::Unsynced => 0,
            SyncStatus::Pending => 1,
            SyncStatus::Synced => 2,
            SyncStatus::Conflicted => 3,
        },
    );
    out.push(flag(entry.deleted));
    out.push(flag(entry.placeholder));
    out.push(flag(entry.superseded));
    match entry.remote_id {
        Some(id) => {
            out.push(1);
            let id_bytes = u64_to_le_bytes(id);
            put(out, &id_bytes);
        },
        None => {
            out.push(0);
        },
    }
    let hash = u64_to_le_bytes(entry.fingerprint.hash);
    put(out, &hash);
    let size = u64_to_le_bytes(entry.fingerprint.size);
    put(out, &size);
    let modified = u64_to_le_bytes(entry.fingerprint.modified);
    put(out, &modified);
    assert(out@ =~= old(out)@ + entry_bytes(entry@));
}

/// The payload of a response. Fails with `TooLarge` exactly where a length
/// in it does not fit the format.
pub fn encode_response(response: &Response) -> (payload: Result<Vec<u8>, WireError>)
    ensures
        match payload {
            Ok(payload) => encodable(response@) && payload@ == response_bytes(response@),
            Err(error) => !encodable(response@) && error == WireError::TooLarge,
        },
{
    match response {
        Response::Listing(entries) => {
            let ghost listed = views(entries@);
            if entries.len() > 0xffff_ffff {
                return Err(WireError::TooLarge);
            }
            let mut payload: Vec<u8> = Vec::new();
            payload.push(TAG_LISTING);
            let count = u32_to_le_bytes(entries.len() as u32);
            put(&mut payload, &count);
            let ghost head = payload@;
            assert(head =~= seq![TAG_LISTING] + spec_u32_to_le_bytes(listed.len() as u32));
            let mut i: usize = 0;
            while i < entries.len()
                invariant
                    i <= entries.len(),
                    listed == views(entries@),
                    response@ == ResponseView::Listing(listed),
                    payload@ == head + entries_bytes(listed.take(i as int)),
                    forall|k: int| 0 <= k < i ==> (#[trigger] listed[k]).path.len() <= max_len(),
                decreases entries.len() - i,
            {
                if entries[i].path.len() > 0xffff_ffff {
                    assert(listed[i as int].path.len() > max_len());
                    return Err(WireError::TooLarge);
                }
                proof {
                    assert(listed.take(i as int + 1).drop_last() =~= listed.take(i as int));
                    assert(listed.take(i as int + 1).last() == entries@[i as int]@);
                }
                put_entry(&mut payload, &entries[i]);
                assert(payload@ =~= head + entries_bytes(listed.take(i as int + 1)));
                i += 1;
            }
            assert(listed.take(i as int) =~= listed);
            Ok(payload)
        },
        Response::Error { kind, message } => {
            let mut payload: Vec<u8> = Vec::new();
            payload.push(TAG_ERROR);
            payload.push(
                match kind {
                    Failure::Decode => 0,
                    Failure::Handler => 1,
                },
            );
            put(&mut payload, message);
            assert(payload@ =~= response_bytes(response@));
            Ok(payload)
        },
    }
}

fn take_byte(bytes: &Vec<u8>, at: usize) -> (taken: Option<(u8, usize)>)
    ensures
        match taken {
            Some((byte, next)) => parse_byte(bytes@, at as int) == Some((byte, next as int)),
            None => parse_byte(bytes@, at as int) is None,
        },
{
    if at < bytes.len() {
        Some((bytes[at], at + 1))
    } else {
        None
    }
}

fn take_u32(bytes: &Vec<u8>, at: usize) -> (taken: Option<(u32, usize)>)
    ensures
        match taken {
            Some((value, next)) => parse_u32(bytes@, at as int) == Some((value, next as int)),
            None => parse_u32(bytes@, at as int) is None,
        },
{
    if at <= bytes.len() && bytes.len() - at >= 4 {
        let value = u32_from_le_bytes(slice_subrange(bytes.as_slice(), at, at + 4));
        Some((value, at + 4))
    } else {
        None
    }
}

fn take_u64(bytes: &Vec<u8>, at: usize) -> (taken: Option<(u64, usize)>)
    ensures
        match taken {
            Some((value, next)) => parse_u64(bytes@, at as int) == Some((value, next as int)),
            None => parse_u64(bytes@, at as int) is None,
        },
{
    if at <= bytes.len() && bytes.len() - at >= 8 {
        let value = u64_from_le_bytes(slice_subrange(bytes.as_slice(), at, at + 8));
        Some((value, at + 8))
    } else {
        None
    }
}

fn take_flag(bytes: &Vec<u8>, at: usize) -> (taken: Option<(bool, usize)>)
    ensures
        match taken {
            Some((value, next)) => parse_flag(bytes@, at as int) == Some((value, next as int)),
            None => parse_flag(bytes@, at as int) is None,
        },
{
    match take_byte(bytes, at) {
        Some((byte, next)) => if byte == 0 {
            Some((false, next))
        } else if byte == 1 {
            Some((true, next))
        } else {
            None
        },
        None => None,
    }
}

fn take_status(bytes: &Vec<u8>, at: usize) -> (taken: Option<(SyncStatus, usize)>)
    ensures
        match taken {
            Some((value, next)) => parse_status(bytes@, at as int) == Some((value, next as int)),
            None => parse_status(bytes@, at as int) is None,
        },
{
    match take_byte(bytes, at) {
        Some((byte, next)) => if byte == 0 {
            Some((SyncStatus::Unsynced, next))
        } else if byte == 1 {
            Some((SyncStatus::Pending, next))
        } else if byte == 2 {
            Some((SyncStatus::Synced, next))
        } else if byte == 3 {
            Some((SyncStatus::Conflicted, next))
        } else {
            None
        },
        None => None,
    }
}

fn take_remote(bytes: &Vec<u8>, at: usize) -> (taken: Option<(Option<u64>, usize)>)
    ensures
        match taken {
            Some((value, next)) => parse_remote(bytes@, at as int) == Some((value, next as int)),
            None => parse_remote(bytes@, at as int) is None,
        },
{
    match take_flag(bytes, at) {
        Some((present, next)) => if present {
            match take_u64(bytes, next) {
                Some((id, end)) => Some((Some(id), end)),
                None => None,
            }
        } else {
            Some((None, next))
        },
        None => None,
    }
}

fn take_print(bytes: &Vec<u8>, at: usize) -> (taken: Option<(Fingerprint, usize)>)
    ensures
        match taken {
            Some((value, next)) => parse_print(bytes@, at as int) == Some((value, next as int)),
            None => parse_print(bytes@, at as int) is None,
        },
{
    let (hash, a) = match take_u64(bytes, at) {
        Some(taken) => taken,
        None => {
            return None;
        },
    };
    let (size, b) = match take_u64(bytes, a) {
        Some(taken) => taken,
        None => {
            return None;
        },
    };
    let (modified, end) = match take_u64(bytes, b) {
        Some(taken) => taken,
        None => {
            return None;
        },
    };
    Some((Fingerprint { hash, size, modified }, end))
}

fn take_path(bytes: &Vec<u8>, at: usize) -> (taken: Option<(Vec<u8>, usize)>)
    ensures
        match taken {
            Some((path, next)) => parse_path(bytes@, at as int) == Some((path@, next as int)),
            None => parse_path(bytes@, at as int) is None,
        },
{
    match take_u32(bytes, at) {
        Some((len, start)) => {
            if bytes.len() - start >= len as usize {
                let end = start + len as usize;
                Some((slice_to_vec(slice_subrange(bytes.as_slice(), start, end)), end))
            } else {
                None
            }
        },
        None => None,
    }
}

fn take_flags(bytes: &Vec<u8>, at: usize) -> (taken: Option<((bool, bool, bool), usize)>)
    ensures
        match taken {
            Some((value, next)) => parse_flags(bytes@, at as int) == Some((value, next as int)),
            None => parse_flags(bytes@, at as int) is None,
        },
{
    let (deleted, a) = match take_flag(bytes, at) {
        Some(taken) => taken,
        None => {
            return None;
        },
    };
    let (placeholder, b) = match take_flag(bytes, a) {
        Some(taken) => taken,
        None => {
            return None;
        },
    };
    let (superseded, end) = match take_flag(bytes, b) {
        Some(taken) => taken,
        None => {
            return None;
        },
    };
    Some(((deleted, placeholder, superseded), end))
}

fn take_entry(bytes: &Vec<u8>, at: usize) -> (taken: Option<(IndexEntry, usize)>)
    ensures
        match taken {
            Some((entry, next)) => parse_entry(bytes@, at as int) == Some((entry@, next as int)),
            None => parse_entry(bytes@, at as int) is None,
        },
{
    let (path, a) = match take_path(bytes, at) {
        Some(taken) => taken,
        None => {
            return None;
        },
    };
    let (status, b) = match take_status(bytes, a) {
        Some(taken) => taken,
        None => {
            return None;
        },
    };
    let (flags, c) = match take_flags(bytes, b) {
        Some(taken) => taken,
        None => {
            return None;
        },
    };
    let (remote_id, d) = match take_remote(bytes, c) {
        Some(taken) => taken,
        None => {
            return None;
        },
    };
    let (fingerprint, end) = match take_print(bytes, d) {
        Some(taken) => taken,
        None => {
            return None;
        },
    };
    Some(
        (
            IndexEntry {
                path,
                fingerprint,
                remote_id,
                status,
                deleted: flags.0,
                placeholder: flags.1,
                superseded: flags.2,
            },
            end,
        ),
    )
}

/// The response a payload stands for; `Malformed` for a payload that is
/// none.
pub fn decode_response(payload: &Vec<u8>) -> (response: Result<Response, WireError>)
    ensures
        match response {
            Ok(response) => parse_response(payload@) == Ok::<ResponseView, WireError>(response@),
            Err(error) => parse_response(payload@) == Err::<ResponseView, WireError>(error),
        },
{
    if payload.len() == 0 {
        return Err(WireError::Malformed);
    }
    let tag = payload[0];
    if tag == TAG_LISTING {
        let (count, start) = match take_u32(payload, 1) {
            Some(taken) => taken,
            None => {
                return Err(WireError::Malformed);
            },
        };
        let mut entries: Vec<IndexEntry> = Vec::new();
        let mut at: usize = start;
        let mut done: u32 = 0;
        assert(views(entries@) =~= Seq::<EntryView>::empty());
        while done < count
            invariant
                done <= count,
                payload@.len() > 0,
                payload@[0] == TAG_LISTING,
                parse_u32(payload@, 1) == Some((count, start as int)),
                parse_entries(payload@, start as int, done as nat) == Some(
                    (views(entries@), at as int),
                ),
            decreases count - done,
        {
            match take_entry(payload, at) {
                Some((entry, next)) => {
                    let ghost before = views(entries@);
                    entries.push(entry);
                    assert(views(entries@) =~= before.push(entry@));
                    at = next;
                },
                None => {
                    proof {
                        assert(parse_entries(payload@, start as int, (done + 1) as nat) is None);
                        lemma_parse_entries_stops(
                            payload@,
                            start as int,
                            (done + 1) as nat,
                            count as nat,
                        );
                    }
                    return Err(WireError::Malformed);
                },
            }
            done += 1;
        }
        if at == payload.len() {
            Ok(Response::Listing(entries))
        } else {
            Err(WireError::Malformed)
        }
    } else if tag == TAG_ERROR {
        if payload.len() >= 2 && payload[1] == 0 {
            Ok(
                Response::Error {
                    kind: Failure::Decode,
                    message: slice_to_vec(slice_subrange(payload.as_slice(), 2, payload.len())),
                },
            )
        } else if payload.len() >= 2 && payload[1] == 1 {
            Ok(
                Response::Error {
                    kind: Failure::Handler,
                    message: slice_to_vec(slice_subrange(payload.as_slice(), 2, payload.len())),
                },
            )
        } else {
            Err(WireError::Malformed)
        }
    } else {
        Err(WireError::Malformed)
    }
}

/// Once a run of entries fails to parse, every longer run fails too.
pub proof fn lemma_parse_entries_stops(bytes: Seq<u8>, at: int, failed: nat, count: nat)
    requires
        failed <= count,
        parse_entries(bytes, at, failed) is None,
    ensures
        parse_entries(bytes, at, count) is None,
    decreases count,
{
    if failed < count {
        lemma_parse_entries_stops(bytes, at, failed, (count - 1) as nat);
    }
}

} // verus!
