//! Capturing what a webview shows.
use vstd::prelude::*;

use crate::tauri::hub::{HubError, Terminal};
use crate::tauri::webview::{is_mapped_hub, is_mapped_terminal, map_hub, map_terminal, WebviewError};

verus! {

/// Why a capture failed.
#[derive(Clone, Copy, Debug, PartialEq, Eq, Structural)]
pub enum CaptureError {
    InvalidDimensions,
    PixelLimit,
    BlobLimit,
    Cancelled,
    NativeFailure,
    EncodingFailure,
    InvalidPng,
}

/// How large a capture may be.
#[derive(Clone, Copy, Debug, PartialEq, Eq, Structural)]
pub struct ViewportCaptureLimits {
    pub maximum_pixels: u64,
    pub maximum_encoded_bytes: usize,
}

impl Default for ViewportCaptureLimits {
    fn default() -> (limits: Self)
        ensures
            limits.maximum_pixels == 4_000_000,
            limits.maximum_encoded_bytes == 1_048_576,
    {
        ViewportCaptureLimits { maximum_pixels: 4_000_000, maximum_encoded_bytes: 1_048_576 }
    }
}

/// Refuses limits that nothing could meet.
pub fn check_limits(limits: ViewportCaptureLimits) -> (checked: Result<(), WebviewError>)
    ensures
        match checked {
            Ok(()) => limits.maximum_pixels > 0 && limits.maximum_encoded_bytes > 0,
            Err(error) => if limits.maximum_pixels == 0 {
                error == WebviewError::CapturePixelLimit
            } else {
                limits.maximum_encoded_bytes == 0 && error == WebviewError::CaptureByteLimit
            },
        },
{
    if limits.maximum_pixels == 0 {
        return Err(WebviewError::CapturePixelLimit);
    }
    if limits.maximum_encoded_bytes == 0 {
        return Err(WebviewError::CaptureByteLimit);
    }
    Ok(())
}

/// A capture as callers see its failure.
pub open spec fn mapped_capture(error: CaptureError) -> WebviewError {
    match error {
        CaptureError::InvalidDimensions => WebviewError::CapturePixelLimit,
        CaptureError::PixelLimit => WebviewError::CapturePixelLimit,
        CaptureError::BlobLimit => WebviewError::CaptureByteLimit,
        CaptureError::Cancelled => WebviewError::Cancelled,
        CaptureError::NativeFailure => WebviewError::CaptureFailed,
        CaptureError::EncodingFailure => WebviewError::CaptureFailed,
        CaptureError::InvalidPng => WebviewError::CaptureFailed,
    }
}

pub fn map_capture(error: CaptureError) -> (mapped: WebviewError)
    ensures
        mapped == mapped_capture(error),
{
    match error {
        CaptureError::InvalidDimensions => WebviewError::CapturePixelLimit,
        CaptureError::PixelLimit => WebviewError::CapturePixelLimit,
        CaptureError::BlobLimit => WebviewError::CaptureByteLimit,
        CaptureError::Cancelled => WebviewError::Cancelled,
        CaptureError::NativeFailure => WebviewError::CaptureFailed,
        CaptureError::EncodingFailure => WebviewError::CaptureFailed,
        CaptureError::InvalidPng => WebviewError::CaptureFailed,
    }
}

/// A refusal to start a capture: too many at once is told apart.
pub fn map_lease(error: HubError) -> (mapped: WebviewError)
    ensures
        if error == HubError::Quota {
            mapped == WebviewError::CaptureBusy
        } else {
            is_mapped_hub(error, mapped)
        },
{
    if error == HubError::Quota {
        WebviewError::CaptureBusy
    } else {
        map_hub(error)
    }
}

/// What a capture came to: the token of its image. `reported` is what the native
/// side said had gone wrong.
pub fn capture_result(
    observed: Result<Option<Terminal>, HubError>,
    reported: Option<CaptureError>,
    resource: Option<u64>,
) -> (result: Result<u64, WebviewError>)
    ensures
        match result {
            Ok(token) => observed == Ok::<Option<Terminal>, HubError>(Some(Terminal::Completed))
                && resource == Some(token),
            Err(error) => match observed {
                Err(refusal) => is_mapped_hub(refusal, error),
                Ok(None) => error.is_host_failure("capture did not complete"@),
                Ok(Some(Terminal::Completed)) => resource is None && error.is_host_failure(
                    "capture omitted its snapshot"@,
                ),
                Ok(Some(Terminal::Rejected)) => match reported {
                    Some(reported) => error == mapped_capture(reported),
                    None => is_mapped_terminal(Terminal::Rejected, error),
                },
                Ok(Some(terminal)) => is_mapped_terminal(terminal, error),
            },
        },
{
    let terminal = match observed {
        Ok(Some(terminal)) => terminal,
        Ok(None) => {
            return Err(WebviewError::HostFailure("capture did not complete".to_owned()));
        },
        Err(refusal) => {
            return Err(map_hub(refusal));
        },
    };
    match terminal {
        Terminal::Completed => match resource {
            Some(token) => Ok(token),
            None => Err(WebviewError::HostFailure("capture omitted its snapshot".to_owned())),
        },
        Terminal::Rejected => match reported {
            Some(reported) => Err(map_capture(reported)),
            None => Err(map_terminal(terminal)),
        },
        _ => Err(map_terminal(terminal)),
    }
}

/// A captured image, to be read piece by piece.
#[derive(Debug)]
pub struct WebviewSnapshot {
    bytes: Vec<u8>,
    position: usize,
    chunk_limit: usize,
    revoked: bool,
}

/// One piece of a captured image.
#[derive(Debug)]
pub struct WebviewSnapshotChunk {
    pub bytes: Vec<u8>,
}

impl WebviewSnapshot {
    pub closed spec fn spec_bytes(&self) -> Seq<u8> {
        self.bytes@
    }

    pub closed spec fn spec_position(&self) -> nat {
        self.position as nat
    }

    /// How many bytes the host hands out at a time.
    pub closed spec fn spec_chunk_limit(&self) -> nat {
        self.chunk_limit as nat
    }

    /// Whether the hub has taken the image back.
    pub closed spec fn spec_revoked(&self) -> bool {
        self.revoked
    }

    pub open spec fn wf(&self) -> bool {
        self.spec_position() <= self.spec_bytes().len()
    }

    pub fn new(bytes: Vec<u8>, chunk_limit: usize) -> (snapshot: Self)
        ensures
            snapshot.wf(),
            snapshot.spec_bytes() == bytes@,
            snapshot.spec_position() == 0,
            snapshot.spec_chunk_limit() == chunk_limit,
            !snapshot.spec_revoked(),
    {
        WebviewSnapshot { bytes, position: 0, chunk_limit, revoked: false }
    }

    /// Takes the image back: nothing more of it can be read.
    pub fn revoke(&mut self)
        requires
            old(self).wf(),
        ensures
            final(self).wf(),
            final(self).spec_revoked(),
            final(self).spec_bytes() == old(self).spec_bytes(),
            final(self).spec_position() == old(self).spec_position(),
            final(self).spec_chunk_limit() == old(self).spec_chunk_limit(),
    {
        self.revoked = true;
    }

    /// The next bytes, at most `maximum_bytes` of them and at least one unless
    /// the end is reached. Asking for none, or for more than the host hands out at a
    /// time, is refused before anything is copied, and so is reading an image that was
    /// taken back.
    pub fn read_chunk(&mut self, maximum_bytes: usize) -> (chunk: Result<
        WebviewSnapshotChunk,
        WebviewError,
    >)
        requires
            old(self).wf(),
        ensures
            final(self).wf(),
            final(self).spec_bytes() == old(self).spec_bytes(),
            final(self).spec_chunk_limit() == old(self).spec_chunk_limit(),
            final(self).spec_revoked() == old(self).spec_revoked(),
            match chunk {
                Ok(chunk) => {
                    let start = old(self).spec_position() as int;
                    let left = old(self).spec_bytes().len() - start;
                    let count = if left < maximum_bytes { left } else { maximum_bytes as int };
                    &&& 0 < maximum_bytes <= old(self).spec_chunk_limit()
                    &&& !old(self).spec_revoked()
                    &&& chunk.bytes@ == old(self).spec_bytes().subrange(start, start + count)
                    &&& final(self).spec_position() == start + count
                },
                Err(error) => {
                    &&& if maximum_bytes == 0 {
                        error == WebviewError::CaptureByteLimit
                    } else if old(self).spec_revoked() {
                        error == WebviewError::WindowClosed
                    } else {
                        maximum_bytes > old(self).spec_chunk_limit() && is_mapped_hub(
                            HubError::Quota,
                            error,
                        )
                    }
                    &&& final(self).spec_position() == old(self).spec_position()
                },
            },
    {
        if maximum_bytes == 0 {
            return Err(WebviewError::CaptureByteLimit);
        }
        if self.revoked {
            return Err(map_hub(HubError::Closed));
        }
        if maximum_bytes > self.chunk_limit {
            return Err(map_hub(HubError::Quota));
        }
        let left: usize = self.bytes.len() - self.position;
        let count: usize = if left < maximum_bytes { left } else { maximum_bytes };
        let end: usize = self.position + count;
        let piece = vstd::slice::slice_subrange(self.bytes.as_slice(), self.position, end);
        let bytes = crate::symbolize::codec::copy_bytes(piece);
        self.position = end;
        Ok(WebviewSnapshotChunk { bytes })
    }
}

/// Where the end of a request for a capture stands, once nobody waits for it any more.
#[derive(Clone, Copy, Debug, PartialEq, Eq, Structural)]
pub enum RequestStage {
    /// End the operation as cancelled, unless it has ended.
    Cancel,
    /// Look whether it had completed just before.
    Look,
    /// Give the image back to the hub, which nobody will read.
    Reclaim { image: u64 },
    /// Take the capture out of the table, on the thread of the views.
    Forget,
    Done,
}

/// The image of a result that was not consumed, by what the hub says of it.
pub open spec fn unconsumed_image(observed: Result<Option<Option<u64>>, HubError>) -> Option<u64> {
    match observed {
        Ok(Some(Some(image))) => Some(image),
        _ => None,
    }
}

/// The stage after another. What a guest asked for is the guest's to consume, so that it
/// is not looked at. `observed` is the result that the hub gave out when it was.
pub open spec fn request_next(
    stage: RequestStage,
    guest_owned: bool,
    observed: Result<Option<Option<u64>>, HubError>,
) -> RequestStage {
    match stage {
        RequestStage::Cancel => if guest_owned { RequestStage::Forget } else { RequestStage::Look },
        RequestStage::Look => match unconsumed_image(observed) {
            Some(image) => RequestStage::Reclaim { image },
            None => RequestStage::Forget,
        },
        RequestStage::Reclaim { image } => RequestStage::Forget,
        RequestStage::Forget => RequestStage::Done,
        RequestStage::Done => RequestStage::Done,
    }
}

/// [`request_next`] as code.
pub fn drop_request(
    stage: RequestStage,
    guest_owned: bool,
    observed: Result<Option<Option<u64>>, HubError>,
) -> (next: RequestStage)
    ensures
        next == request_next(stage, guest_owned, observed),
{
    match stage {
        RequestStage::Cancel => if guest_owned {
            RequestStage::Forget
        } else {
            RequestStage::Look
        },
        RequestStage::Look => match observed {
            Ok(Some(Some(image))) => RequestStage::Reclaim { image },
            _ => RequestStage::Forget,
        },
        RequestStage::Reclaim { image: _ } => RequestStage::Forget,
        RequestStage::Forget => RequestStage::Done,
        RequestStage::Done => RequestStage::Done,
    }
}

/// How the operation of a request ends that nobody waits for any more, unless it has
/// ended.
pub fn dropped_request_terminal() -> (terminal: Terminal)
    ensures
        terminal == Terminal::Cancelled,
{
    Terminal::Cancelled
}

/// The stage that a history of what the hub said leads to.
pub open spec fn request_after(
    guest_owned: bool,
    observed: Seq<Result<Option<Option<u64>>, HubError>>,
) -> RequestStage
    decreases observed.len(),
{
    if observed.len() == 0 {
        RequestStage::Cancel
    } else {
        request_next(
            request_after(guest_owned, observed.drop_last()),
            guest_owned,
            observed.last(),
        )
    }
}

/// An image that a guest asked for is never taken from it; one that nobody else will read
/// is given back if the hub gave it out; and every request is done after four steps.
pub proof fn images_are_reclaimed_unless_a_guest_owns_them(
    guest_owned: bool,
    observed: Seq<Result<Option<Option<u64>>, HubError>>,
)
    ensures
        guest_owned ==> !(request_after(guest_owned, observed) is Reclaim),
        !guest_owned && observed.len() == 2 && unconsumed_image(observed[1]) is Some
            ==> request_after(guest_owned, observed) == (RequestStage::Reclaim {
            image: unconsumed_image(observed[1])->Some_0,
        }),
        observed.len() >= 4 ==> request_after(guest_owned, observed) == RequestStage::Done,
{
    lemma_request_history(guest_owned, observed);
}

proof fn lemma_request_history(
    guest_owned: bool,
    observed: Seq<Result<Option<Option<u64>>, HubError>>,
)
    ensures
        match request_after(guest_owned, observed) {
            RequestStage::Cancel => observed.len() == 0,
            RequestStage::Look => observed.len() == 1 && !guest_owned,
            RequestStage::Reclaim { image } => observed.len() == 2 && !guest_owned
                && unconsumed_image(observed[1]) == Some(image),
            RequestStage::Forget => 1 <= observed.len() <= 3 && (observed.len() == 2
                && !guest_owned ==> unconsumed_image(observed[1]) is None) && (observed.len() == 1
                ==> guest_owned),
            RequestStage::Done => observed.len() >= 2 && (!guest_owned ==> observed.len() >= 3),
        },
    decreases observed.len(),
{
    if observed.len() > 0 {
        let before = observed.drop_last();
        lemma_request_history(guest_owned, before);
        if observed.len() == 2 {
            assert(observed.last() == observed[1]);
        }
    }
}

/// Whether an operation is among captures that are under way.
pub open spec fn is_under_way(entries: Seq<(u64, u64)>, operation: u64) -> bool {
    exists|i: int| 0 <= i < entries.len() && (#[trigger] entries[i]).0 == operation
}

/// A capture that was taken out is not under way, and no other is touched by that.
pub proof fn finished_captures_stay_finished(entries: Seq<(u64, u64)>, operation: u64, other: u64)
    ensures
        ({
            let left = entries.filter(|entry: (u64, u64)| entry.0 != operation);
            &&& !is_under_way(left, operation)
            &&& other != operation ==> is_under_way(left, other) == is_under_way(entries, other)
        }),
    decreases entries.len(),
{
    let kept = |entry: (u64, u64)| entry.0 != operation;
    let left = entries.filter(kept);
    reveal(Seq::filter);
    if entries.len() > 0 {
        let front = entries.drop_last();
        finished_captures_stay_finished(front, operation, other);
        let before = front.filter(kept);
        if kept(entries.last()) {
            assert(left == before.push(entries.last()));
            assert forall|i: int| 0 <= i < left.len() implies (#[trigger] left[i]).0
                != operation by {
                if i < before.len() {
                    assert(left[i] == before[i]);
                }
            }
        } else {
            assert(left == before);
        }
        if other != operation {
            if is_under_way(left, other) {
                let i = choose|i: int| 0 <= i < left.len() && (#[trigger] left[i]).0 == other;
                if i < before.len() {
                    assert(before[i].0 == other);
                    let j = choose|j: int| 0 <= j < front.len() && (#[trigger] front[j]).0 == other;
                    assert(entries[j].0 == other);
                } else {
                    assert(entries[entries.len() - 1].0 == other);
                }
            }
            if is_under_way(entries, other) {
                let i = choose|i: int| 0 <= i < entries.len() && (#[trigger] entries[i]).0 == other;
                if i < front.len() {
                    assert(front[i].0 == other);
                    let j = choose|j: int|
                        0 <= j < before.len() && (#[trigger] before[j]).0 == other;
                    assert(left[j].0 == other);
                } else {
                    assert(left[left.len() - 1].0 == other);
                }
            }
        }
    }
}

/// Captures that are under way, each with the view that it is of.
#[derive(Debug)]
pub struct CaptureTable {
    entries: Vec<(u64, u64)>,
}

impl CaptureTable {
    /// Pairs of an operation and its view, in the order in which they began.
    pub closed spec fn view(&self) -> Seq<(u64, u64)> {
        self.entries@
    }

    pub fn new() -> (table: Self)
        ensures
            table@.len() == 0,
    {
        CaptureTable { entries: Vec::new() }
    }

    /// Takes a finished capture out, leaving the rest as they are, and tells whether it
    /// was under way.
    pub fn finish(&mut self, operation: u64) -> (found: bool)
        ensures
            final(self)@ == old(self)@.filter(|entry: (u64, u64)| entry.0 != operation),
            found == is_under_way(old(self)@, operation),
    {
        let ghost others = |entry: (u64, u64)| entry.0 != operation;
        let mut kept: Vec<(u64, u64)> = Vec::new();
        let mut found = false;
        proof {
            reveal(Seq::filter);
            assert(kept@ =~= self.entries@.take(0).filter(others));
        }
        for at in 0..self.entries.len()
            invariant
                self.entries@ == old(self).entries@,
                others == (|entry: (u64, u64)| entry.0 != operation),
                kept@ == self.entries@.take(at as int).filter(others),
                found == is_under_way(self.entries@.take(at as int), operation),
        {
            let entry = self.entries[at];
            proof {
                reveal(Seq::filter);
                let upto = self.entries@.take(at + 1);
                assert(upto.drop_last() =~= self.entries@.take(at as int));
                assert(upto.last() == entry);
            }
            if entry.0 == operation {
                found = true;
                assert(self.entries@.take(at + 1)[at as int].0 == operation);
            } else {
                kept.push(entry);
                proof {
                    let upto = self.entries@.take(at + 1);
                    if is_under_way(self.entries@.take(at as int), operation) {
                        let i = choose|i: int|
                            0 <= i < at && (#[trigger] self.entries@.take(at as int)[i]).0
                                == operation;
                        assert(upto[i].0 == operation);
                    }
                    if is_under_way(upto, operation) {
                        let i = choose|i: int|
                            0 <= i < upto.len() && (#[trigger] upto[i]).0 == operation;
                        assert(self.entries@.take(at as int)[i].0 == operation);
                    }
                }
            }
        }
        assert(self.entries@.take(self.entries@.len() as int) =~= self.entries@);
        self.entries = kept;
        found
    }

    /// Notes a capture. One of the same operation is forgotten.
    pub fn begin(&mut self, operation: u64, view: u64)
        ensures
            final(self)@ == old(self)@.filter(|entry: (u64, u64)| entry.0 != operation).push(
                (operation, view),
            ),
    {
        self.finish(operation);
        self.entries.push((operation, view));
    }

    /// Whether the means to cancel a capture, which the host hands over late, is kept. A
    /// capture that has finished meanwhile is not noted again.
    pub fn keeps_cancellation(&self, operation: u64) -> (keeps: bool)
        ensures
            keeps == is_under_way(self@, operation),
    {
        for at in 0..self.entries.len()
            invariant
                forall|i: int| 0 <= i < at ==> (#[trigger] self.entries@[i]).0 != operation,
        {
            if self.entries[at].0 == operation {
                return true;
            }
        }
        false
    }

    /// Takes out every capture of a view, to be cancelled.
    pub fn cancel_for_view(&mut self, view: u64) -> (cancelled: Vec<u64>)
        ensures
            final(self)@ == old(self)@.filter(|entry: (u64, u64)| entry.1 != view),
            cancelled@ == old(self)@.filter(|entry: (u64, u64)| entry.1 == view).map_values(
                |entry: (u64, u64)| entry.0,
            ),
    {
        let ghost others = |entry: (u64, u64)| entry.1 != view;
        let ghost own = |entry: (u64, u64)| entry.1 == view;
        let ghost first = |entry: (u64, u64)| entry.0;
        let mut kept: Vec<(u64, u64)> = Vec::new();
        let mut cancelled: Vec<u64> = Vec::new();
        proof {
            reveal(Seq::filter);
            assert(self.entries@.take(0) =~= Seq::<(u64, u64)>::empty());
            assert(cancelled@ =~= self.entries@.take(0).filter(own).map_values(first));
            assert(kept@ =~= self.entries@.take(0).filter(others));
        }
        for at in 0..self.entries.len()
            invariant
                self.entries@ == old(self).entries@,
                others == (|entry: (u64, u64)| entry.1 != view),
                own == (|entry: (u64, u64)| entry.1 == view),
                first == (|entry: (u64, u64)| entry.0),
                kept@ == self.entries@.take(at as int).filter(others),
                cancelled@ == self.entries@.take(at as int).filter(own).map_values(first),
        {
            let entry = self.entries[at];
            proof {
                reveal(Seq::filter);
                let upto = self.entries@.take(at + 1);
                assert(upto.drop_last() =~= self.entries@.take(at as int));
                assert(upto.last() == entry);
            }
            let ghost mine = self.entries@.take(at as int).filter(own);
            if entry.1 == view {
                cancelled.push(entry.0);
                assert(mine.push(entry).map_values(first) =~= mine.map_values(first).push(entry.0));
            } else {
                kept.push(entry);
            }
        }
        assert(self.entries@.take(self.entries@.len() as int) =~= self.entries@);
        self.entries = kept;
        cancelled
    }
}

/// A failed capture is told as a matter of pixels, of bytes, of a cancellation, or of the capture
/// itself.
pub proof fn capture_failures_keep_their_kind(error: CaptureError)
    ensures
        mapped_capture(error) == WebviewError::CapturePixelLimit <==> error
            == CaptureError::InvalidDimensions || error == CaptureError::PixelLimit,
        mapped_capture(error) == WebviewError::CaptureByteLimit <==> error
            == CaptureError::BlobLimit,
        mapped_capture(error) == WebviewError::Cancelled <==> error == CaptureError::Cancelled,
        mapped_capture(error) == WebviewError::CaptureFailed <==> error
            == CaptureError::NativeFailure || error == CaptureError::EncodingFailure || error
            == CaptureError::InvalidPng,
{
}

/// A capture has a result only where it completed and left one.
pub proof fn completed_captures_have_a_result(
    observed: Result<Option<Terminal>, HubError>,
    reported: Option<CaptureError>,
    resource: Option<u64>,
    result: Result<u64, WebviewError>,
)
    requires
        call_ensures(capture_result, (observed, reported, resource), result),
    ensures
        result is Ok <==> observed == Ok::<Option<Terminal>, HubError>(Some(Terminal::Completed))
            && resource is Some,
        result is Ok ==> resource == Some(result->Ok_0),
        observed == Ok::<Option<Terminal>, HubError>(Some(Terminal::TimedOut)) ==> result is Err
            && result->Err_0 == WebviewError::TimedOut,
        observed == Ok::<Option<Terminal>, HubError>(Some(Terminal::Rejected)) && reported == Some(
            CaptureError::BlobLimit,
        ) ==> result is Err && result->Err_0 == WebviewError::CaptureByteLimit,
{
}

} // verus!
