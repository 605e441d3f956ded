//! Capturing what a webview shows, as a PNG of bounded size.
use vstd::prelude::*;

use crate::tauri::capture::CaptureError;
use crate::tauri::hub::HubError;

verus! {

/// How many bytes of an image are kept to check its format.
pub const HEADER_BYTES: usize = 24;

/// A 32-bit number, high byte first.
pub open spec fn be32(bytes: Seq<u8>, at: int) -> nat {
    (16777216 * bytes[at] + 65536 * bytes[at + 1] + 256 * bytes[at + 2] + bytes[at + 3]) as nat
}

/// What every PNG starts with: its signature, and the length and name of its
/// first chunk.
pub open spec fn png_start() -> Seq<u8> {
    seq![
        0x89, 0x50, 0x4e, 0x47, 0x0d, 0x0a, 0x1a, 0x0a, 0x00, 0x00, 0x00, 0x0d, 0x49, 0x48, 0x44,
        0x52,
    ]
}

/// Whether a size has pixels, and no more than allowed.
pub open spec fn pixels_fit(width: nat, height: nat, maximum: nat) -> bool {
    width > 0 && height > 0 && width * height <= maximum
}

pub fn check_pixels(width: u64, height: u64, maximum: u64) -> (checked: Result<(), CaptureError>)
    ensures
        match checked {
            Ok(()) => pixels_fit(width as nat, height as nat, maximum as nat),
            Err(error) => error == CaptureError::PixelLimit && !pixels_fit(
                width as nat,
                height as nat,
                maximum as nat,
            ),
        },
{
    if width == 0 || height == 0 {
        return Err(CaptureError::PixelLimit);
    }
    match width.checked_mul(height) {
        Some(pixels) => if pixels > maximum {
            Err(CaptureError::PixelLimit)
        } else {
            Ok(())
        },
        None => Err(CaptureError::PixelLimit),
    }
}

/// The size of a viewport, by its bounds.
pub fn check_viewport(left: i32, top: i32, right: i32, bottom: i32, maximum: u64) -> (checked: Result<
    (),
    CaptureError,
>)
    ensures
        match checked {
            Ok(()) => right > left && bottom > top && pixels_fit(
                (right - left) as nat,
                (bottom - top) as nat,
                maximum as nat,
            ),
            Err(error) => error == CaptureError::PixelLimit && !(right > left && bottom > top
                && pixels_fit((right - left) as nat, (bottom - top) as nat, maximum as nat)),
        },
{
    let width: i64 = right as i64 - left as i64;
    let height: i64 = bottom as i64 - top as i64;
    if width <= 0 || height <= 0 {
        return Err(CaptureError::PixelLimit);
    }
    check_pixels(width as u64, height as u64, maximum)
}

/// Whether an image is a PNG of an allowed size, by its first bytes.
pub fn check_png(header: &[u8; 24], maximum: u64) -> (checked: Result<(), CaptureError>)
    ensures
        match checked {
            Ok(()) => header@.take(16) == png_start() && pixels_fit(
                be32(header@, 16),
                be32(header@, 20),
                maximum as nat,
            ),
            Err(error) => if header@.take(16) == png_start() {
                error == CaptureError::PixelLimit && !pixels_fit(
                    be32(header@, 16),
                    be32(header@, 20),
                    maximum as nat,
                )
            } else {
                error == CaptureError::InvalidPng
            },
        },
{
    let start: [u8; 16] = [
        0x89, 0x50, 0x4e, 0x47, 0x0d, 0x0a, 0x1a, 0x0a, 0x00, 0x00, 0x00, 0x0d, 0x49, 0x48, 0x44,
        0x52,
    ];
    assert(start@ =~= png_start());
    for at in 0..16usize
        invariant
            start@ == png_start(),
            forall|i: int| 0 <= i < at ==> header@[i] == start@[i],
    {
        if header[at] != start[at] {
            assert(header@.take(16)[at as int] != png_start()[at as int]);
            return Err(CaptureError::InvalidPng);
        }
    }
    assert(header@.take(16) =~= png_start());
    let width: u64 = 16777216 * header[16] as u64 + 65536 * header[17] as u64 + 256
        * header[18] as u64 + header[19] as u64;
    let height: u64 = 16777216 * header[20] as u64 + 65536 * header[21] as u64 + 256
        * header[22] as u64 + header[23] as u64;
    check_pixels(width, height, maximum)
}

/// Bytes after others were written over them at a place.
pub open spec fn overwritten(header: Seq<u8>, position: int, bytes: Seq<u8>) -> Seq<u8> {
    Seq::new(
        header.len(),
        |i: int|
            if position <= i < position + bytes.len() {
                bytes[i - position]
            } else {
                header[i]
            },
    )
}

/// Keeps the part of a write that falls into the first bytes of an image. An
/// encoder may come back and write them again.
pub fn record_header(header: &mut [u8; 24], position: u64, bytes: &[u8])
    ensures
        final(header)@ == overwritten(old(header)@, position as int, bytes@),
{
    let ghost before = header@;
    if position >= 24 {
        assert(header@ =~= overwritten(before, position as int, bytes@));
        return ;
    }
    let start: usize = position as usize;
    let room: usize = 24 - start;
    let count: usize = if bytes.len() < room { bytes.len() } else { room };
    for at in 0..count
        invariant
            start < 24,
            count <= 24 - start,
            count <= bytes@.len(),
            header@.len() == 24,
            header@ == overwritten(before, start as int, bytes@.take(at as int)),
            before.len() == 24,
    {
        let byte: u8 = bytes[at];
        header[start + at] = byte;
        assert(header@ =~= overwritten(before, start as int, bytes@.take(at + 1)));
    }
    assert(header@ =~= overwritten(before, position as int, bytes@));
}

/// What a stream answers.
#[derive(Clone, Copy, Debug, PartialEq, Eq, Structural)]
pub enum StreamStatus {
    Done,
    Fail,
    NullPointer,
    InvalidArgument,
    NotImplemented,
}

/// What a write is answered, and how many bytes it reports as written: all or
/// none. `accepted` tells whether the encoder took them; one that is finished or
/// revoked takes nothing.
pub fn write_status(is_null: bool, count: u32, accepted: bool) -> (answer: (StreamStatus, u32))
    ensures
        answer == if count > 0 && is_null {
            (StreamStatus::NullPointer, 0u32)
        } else if !accepted {
            (StreamStatus::Fail, 0u32)
        } else {
            (StreamStatus::Done, count)
        },
{
    if count > 0 && is_null {
        (StreamStatus::NullPointer, 0)
    } else if !accepted {
        (StreamStatus::Fail, 0)
    } else {
        (StreamStatus::Done, count)
    }
}

/// Takes a write: the part of it that falls into the first bytes of the image is kept, but
/// only if the encoder took the bytes. `bytes` is nothing where the host gave no place to
/// read from, and `position` nothing where the encoder is gone or cannot tell where it is.
pub fn write_bytes(
    header: &mut [u8; 24],
    count: u32,
    bytes: Option<&[u8]>,
    position: Option<u64>,
    accepted: bool,
) -> (answer: (StreamStatus, u32))
    requires
        bytes is Some ==> bytes->Some_0@.len() == count,
    ensures
        answer == if count > 0 && bytes is None {
            (StreamStatus::NullPointer, 0u32)
        } else if position is None || !accepted {
            (StreamStatus::Fail, 0u32)
        } else {
            (StreamStatus::Done, count)
        },
        final(header)@ == if answer.0 == StreamStatus::Done && bytes is Some {
            overwritten(old(header)@, position->Some_0 as int, bytes->Some_0@)
        } else {
            old(header)@
        },
{
    let answer = write_status(bytes.is_none(), count, accepted && position.is_some());
    if answer.0 == StreamStatus::Done {
        if let (Some(bytes), Some(position)) = (bytes, position) {
            record_header(header, position, bytes);
        }
    }
    answer
}

/// Where a seek counts from.
#[derive(Clone, Copy, Debug, PartialEq, Eq, Structural)]
pub enum SeekOrigin {
    Start { offset: u64 },
    Current { offset: i64 },
    End { offset: i64 },
}

/// What a seek asks for: 0 from the start, 1 from here, 2 from the end. There is
/// nothing before the start.
pub fn seek_origin(offset: i64, origin: u32) -> (from: Result<SeekOrigin, StreamStatus>)
    ensures
        from == if origin == 0 && offset >= 0 {
            Ok(SeekOrigin::Start { offset: offset as u64 })
        } else if origin == 1 {
            Ok(SeekOrigin::Current { offset })
        } else if origin == 2 {
            Ok(SeekOrigin::End { offset })
        } else {
            Err(StreamStatus::InvalidArgument)
        },
{
    if origin == 0 && offset >= 0 {
        Ok(SeekOrigin::Start { offset: offset as u64 })
    } else if origin == 1 {
        Ok(SeekOrigin::Current { offset })
    } else if origin == 2 {
        Ok(SeekOrigin::End { offset })
    } else {
        Err(StreamStatus::InvalidArgument)
    }
}

/// What a seek is answered: the place that it leads to. The stream is of no use once its
/// state is lost or its encoder is gone; `sought` is where the encoder says it is.
pub fn seek_status(
    offset: i64,
    origin: u32,
    has_encoder: bool,
    sought: Option<u64>,
) -> (answer: Result<u64, StreamStatus>)
    ensures
        answer == if !(origin == 0 && offset >= 0) && origin != 1 && origin != 2 {
            Err(StreamStatus::InvalidArgument)
        } else if !has_encoder {
            Err(StreamStatus::Fail)
        } else {
            match sought {
                Some(place) => Ok(place),
                None => Err(StreamStatus::InvalidArgument),
            }
        },
{
    match seek_origin(offset, origin) {
        Ok(_) => {},
        Err(status) => {
            return Err(status);
        },
    }
    if !has_encoder {
        return Err(StreamStatus::Fail);
    }
    match sought {
        Some(place) => Ok(place),
        None => Err(StreamStatus::InvalidArgument),
    }
}

/// What the question for a stream's size is answered. `size` is what the encoder says,
/// unless it is gone or one of its seeks failed.
pub fn stat_status(is_null: bool, size: Option<u64>) -> (answer: Result<u64, StreamStatus>)
    ensures
        answer == if is_null {
            Err(StreamStatus::NullPointer)
        } else {
            match size {
                Some(size) => Ok(size),
                None => Err(StreamStatus::Fail),
            }
        },
{
    if is_null {
        return Err(StreamStatus::NullPointer);
    }
    match size {
        Some(size) => Ok(size),
        None => Err(StreamStatus::Fail),
    }
}

/// What a refusal of the hub means for a capture.
pub open spec fn mapped_hub(error: HubError) -> CaptureError {
    match error {
        HubError::Closed => CaptureError::Cancelled,
        HubError::Invalid => CaptureError::Cancelled,
        _ => CaptureError::BlobLimit,
    }
}

pub fn map_hub(error: HubError) -> (mapped: CaptureError)
    ensures
        mapped == mapped_hub(error),
{
    match error {
        HubError::Closed => CaptureError::Cancelled,
        HubError::Invalid => CaptureError::Cancelled,
        _ => CaptureError::BlobLimit,
    }
}

/// What became of the encoder of a capture by the time that the host is done.
#[derive(Clone, Copy, Debug, PartialEq, Eq, Structural)]
pub enum EncoderState {
    /// Its state cannot be had any more.
    Lost,
    /// Someone else took it.
    Taken,
    /// The hub refused some of its bytes.
    Failed(HubError),
    /// It holds all that was written.
    Whole,
}

/// Whether a capture may be published: the state of the encoder counts before a failure
/// of the host, and that before what is wrong with the image.
pub open spec fn capture_fault(
    encoder: EncoderState,
    host_failed: bool,
    header: Seq<u8>,
    maximum: nat,
) -> Option<CaptureError> {
    match encoder {
        EncoderState::Lost => Some(CaptureError::NativeFailure),
        EncoderState::Taken => Some(CaptureError::Cancelled),
        EncoderState::Failed(error) => Some(mapped_hub(error)),
        EncoderState::Whole => if host_failed {
            Some(CaptureError::NativeFailure)
        } else if header.take(16) != png_start() {
            Some(CaptureError::InvalidPng)
        } else if !pixels_fit(be32(header, 16), be32(header, 20), maximum) {
            Some(CaptureError::PixelLimit)
        } else {
            None
        },
    }
}

/// Whether a capture that the host is done with may be published.
pub fn check_capture(
    encoder: EncoderState,
    host_failed: bool,
    header: &[u8; 24],
    maximum: u64,
) -> (checked: Result<(), CaptureError>)
    ensures
        match checked {
            Ok(()) => capture_fault(encoder, host_failed, header@, maximum as nat) is None,
            Err(error) => capture_fault(encoder, host_failed, header@, maximum as nat) == Some(
                error,
            ),
        },
{
    match encoder {
        EncoderState::Lost => Err(CaptureError::NativeFailure),
        EncoderState::Taken => Err(CaptureError::Cancelled),
        EncoderState::Failed(error) => Err(map_hub(error)),
        EncoderState::Whole => if host_failed {
            Err(CaptureError::NativeFailure)
        } else {
            check_png(header, maximum)
        },
    }
}

/// What a capture comes to: the image that the hub published. `finished` is the hub's
/// answer to the wish to publish it, which is put only where nothing else is wrong.
pub fn capture_outcome(
    encoder: EncoderState,
    host_failed: bool,
    header: &[u8; 24],
    maximum: u64,
    finished: Result<u64, HubError>,
) -> (outcome: Result<u64, CaptureError>)
    ensures
        outcome == match capture_fault(encoder, host_failed, header@, maximum as nat) {
            Some(error) => Err::<u64, CaptureError>(error),
            None => match finished {
                Ok(image) => Ok(image),
                Err(error) => Err(mapped_hub(error)),
            },
        },
{
    match check_capture(encoder, host_failed, header, maximum) {
        Ok(()) => match finished {
            Ok(image) => Ok(image),
            Err(error) => Err(map_hub(error)),
        },
        Err(error) => Err(error),
    }
}

/// An image whose header is written as the format asks for is published where its pixels are
/// neither none nor too many, and only there.
pub proof fn written_headers_are_judged_by_their_size(
    width: (u8, u8, u8, u8),
    height: (u8, u8, u8, u8),
    rest: Seq<u8>,
    maximum: nat,
)
    ensures
        ({
            let header = png_start() + seq![width.0, width.1, width.2, width.3] + seq![
                height.0,
                height.1,
                height.2,
                height.3,
            ] + rest;
            let wide = ((width.0 * 256 + width.1) * 256 + width.2) * 256 + width.3;
            let high = ((height.0 * 256 + height.1) * 256 + height.2) * 256 + height.3;
            &&& capture_fault(EncoderState::Whole, false, header, maximum) is None <==> wide > 0
                && high > 0 && wide * high <= maximum
            &&& !(wide > 0 && high > 0 && wide * high <= maximum) ==> capture_fault(
                EncoderState::Whole,
                false,
                header,
                maximum,
            ) == Some(CaptureError::PixelLimit)
        }),
{
    let header = png_start() + seq![width.0, width.1, width.2, width.3] + seq![
        height.0,
        height.1,
        height.2,
        height.3,
    ] + rest;
    assert(header.take(16) =~= png_start());
    assert(header[16] == width.0 && header[17] == width.1 && header[18] == width.2 && header[19]
        == width.3);
    assert(header[20] == height.0 && header[21] == height.1 && header[22] == height.2 && header[23]
        == height.3);
}

/// What the encoder lost counts before all else, a failure of the host before what is wrong with
/// the image, and a start that is another format's before its size.
pub proof fn losses_count_before_the_image(
    error: HubError,
    host_failed: bool,
    header: Seq<u8>,
    maximum: nat,
    at: int,
)
    requires
        header.len() >= 24,
        0 <= at < 16,
    ensures
        capture_fault(EncoderState::Lost, host_failed, header, maximum) == Some(
            CaptureError::NativeFailure,
        ),
        capture_fault(EncoderState::Taken, host_failed, header, maximum) == Some(
            CaptureError::Cancelled,
        ),
        error == HubError::Closed || error == HubError::Invalid ==> capture_fault(
            EncoderState::Failed(error),
            host_failed,
            header,
            maximum,
        ) == Some(CaptureError::Cancelled),
        error != HubError::Closed && error != HubError::Invalid ==> capture_fault(
            EncoderState::Failed(error),
            host_failed,
            header,
            maximum,
        ) == Some(CaptureError::BlobLimit),
        capture_fault(EncoderState::Whole, true, header, maximum) == Some(
            CaptureError::NativeFailure,
        ),
        header[at] != seq![
            0x89u8,
            0x50u8,
            0x4eu8,
            0x47u8,
            0x0du8,
            0x0au8,
            0x1au8,
            0x0au8,
            0u8,
            0u8,
            0u8,
            0x0du8,
            0x49u8,
            0x48u8,
            0x44u8,
            0x52u8,
        ][at] ==> capture_fault(EncoderState::Whole, false, header, maximum) == Some(
            CaptureError::InvalidPng,
        ),
{
    assert(header.take(16)[at] == header[at]);
    assert(png_start() =~= seq![
        0x89u8,
        0x50u8,
        0x4eu8,
        0x47u8,
        0x0du8,
        0x0au8,
        0x1au8,
        0x0au8,
        0u8,
        0u8,
        0u8,
        0x0du8,
        0x49u8,
        0x48u8,
        0x44u8,
        0x52u8,
    ]);
}

/// Writing goes on where it stopped: two writes, one behind the other, leave what one write of
/// both leaves; and one that covers all leaves nothing of what was there.
pub proof fn writes_go_on_where_they_stopped(
    header: Seq<u8>,
    position: int,
    first: Seq<u8>,
    second: Seq<u8>,
    at: int,
)
    requires
        0 <= at < header.len(),
    ensures
        overwritten(overwritten(header, position, first), position + first.len(), second)
            == overwritten(header, position, first + second),
        first.len() == header.len() ==> overwritten(header, 0, first) == first,
        at < position || at >= position + first.len() ==> overwritten(header, position, first)[at]
            == header[at],
{
    assert(overwritten(overwritten(header, position, first), position + first.len(), second)
        =~= overwritten(header, position, first + second));
    if first.len() == header.len() {
        assert(overwritten(header, 0, first) =~= first);
    }
}

/// A viewport is captured by its extent alone, wherever it lies.
pub proof fn viewports_count_by_their_extent(
    left: i32,
    top: i32,
    width: i32,
    height: i32,
    maximum: u64,
    checked: Result<(), CaptureError>,
)
    requires
        left + width <= i32::MAX,
        left + width >= i32::MIN,
        top + height <= i32::MAX,
        top + height >= i32::MIN,
        call_ensures(
            check_viewport,
            (left, top, (left + width) as i32, (top + height) as i32, maximum),
            checked,
        ),
    ensures
        checked is Ok <==> width > 0 && height > 0 && width * height <= maximum,
        checked is Err ==> checked->Err_0 == CaptureError::PixelLimit,
{
}

/// A write is taken whole or not at all.
pub proof fn writes_are_taken_whole(
    is_null: bool,
    count: u32,
    accepted: bool,
    answer: (StreamStatus, u32),
)
    requires
        call_ensures(write_status, (is_null, count, accepted), answer),
    ensures
        answer.0 == StreamStatus::Done ==> answer.1 == count && accepted,
        answer.0 != StreamStatus::Done ==> answer.1 == 0,
        accepted && (!is_null || count == 0) ==> answer.0 == StreamStatus::Done,
        answer.0 == StreamStatus::NullPointer <==> is_null && count > 0,
{
}

/// A seek counts from the start, the place or the end, and from the start only forwards; one
/// that is understood is the same that is carried out.
pub proof fn seeks_count_from_three_places(
    offset: i64,
    origin: u32,
    from: Result<SeekOrigin, StreamStatus>,
    place: u64,
    answer: Result<u64, StreamStatus>,
)
    requires
        call_ensures(seek_origin, (offset, origin), from),
        call_ensures(seek_status, (offset, origin, true, Some(place)), answer),
    ensures
        from is Ok == answer is Ok,
        answer is Ok ==> answer->Ok_0 == place,
        from is Ok <==> origin == 0 && offset >= 0 || origin == 1 || origin == 2,
        match from {
            Ok(SeekOrigin::Start { offset: at }) => origin == 0 && at == offset,
            Ok(SeekOrigin::Current { offset: at }) => origin == 1 && at == offset,
            Ok(SeekOrigin::End { offset: at }) => origin == 2 && at == offset,
            Err(status) => status == StreamStatus::InvalidArgument,
        },
{
}

/// An image is handed out only where the encoder kept all of it, the host did not fail, it starts
/// as the format does, and the hub took it.
pub proof fn handed_out_images_are_whole(
    encoder: EncoderState,
    host_failed: bool,
    header: &[u8; 24],
    maximum: u64,
    finished: Result<u64, HubError>,
    outcome: Result<u64, CaptureError>,
)
    requires
        call_ensures(capture_outcome, (encoder, host_failed, header, maximum, finished), outcome),
    ensures
        outcome is Ok ==> {
            &&& finished == Ok::<u64, HubError>(outcome->Ok_0)
            &&& encoder == EncoderState::Whole
            &&& !host_failed
            &&& header@[0] == 0x89 && header@[1] == 0x50 && header@[2] == 0x4e && header@[3] == 0x47
        },
        finished is Err ==> outcome is Err,
{
    if outcome is Ok {
        let start = header@.take(16);
        assert(start[0] == header@[0] && start[1] == header@[1] && start[2] == header@[2]
            && start[3] == header@[3]);
    }
}

} // verus!
