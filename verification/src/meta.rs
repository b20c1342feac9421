//! The response envelope: status, row count, snapshot epoch and query
//! duration, attached to every query result sent back to a client.

use vstd::prelude::*;

verus! {

/// Outcome of a query: either success, or an error with a readable message.
#[derive(Debug, Clone)]
pub enum ResponseStatus {
    /// The query ran to completion.
    Success,
    /// The query failed; the message says why.
    Error { message: String },
}

impl Default for ResponseStatus {
    fn default() -> (r: Self)
        ensures
            r is Success,
    {
        ResponseStatus::Success
    }
}

/// Envelope carried by every query response.
#[derive(Debug, Clone)]
pub struct ResponseMeta {
    /// Whether the query succeeded, and the message when it did not.
    pub status: ResponseStatus,
    /// The number of rows in the response data.
    pub total: usize,
    /// Wall-clock milliseconds at which the query started.
    pub epoch: u64,
    /// How long the query took, in milliseconds.
    pub duration: u64,
}

impl ResponseMeta {
    /// Assembles an envelope from its parts. The textual message travels
    /// inside the status, so a separate message argument is dropped.
    pub fn new(
        status: ResponseStatus,
        total: usize,
        epoch: u64,
        _message: String,
        duration: u64,
    ) -> (r: Self)
        ensures
            r.status == status,
            r.total == total,
            r.epoch == epoch,
            r.duration == duration,
    {
        ResponseMeta { status, total, epoch, duration }
    }

    /// Assembles a success envelope.
    pub fn ok(total: usize, epoch: u64, duration: u64) -> (r: Self)
        ensures
            r.status is Success,
            r.total == total,
            r.epoch == epoch,
            r.duration == duration,
    {
        ResponseMeta { status: ResponseStatus::Success, total, epoch, duration }
    }
}

impl Default for ResponseMeta {
    fn default() -> (r: Self)
        ensures
            r.status is Success,
            r.total == 0,
            r.epoch == 0,
            r.duration == 0,
    {
        ResponseMeta { status: ResponseStatus::Success, total: 0, epoch: 0, duration: 0 }
    }
}

/// Relies on chrono::Utc::now and DateTime::timestamp_millis: the current
/// wall-clock time in milliseconds since the Unix epoch. The value depends
/// on the clock, so nothing is promised of it.
#[verifier::external_body]
fn now_epoch_millis() -> u64 {
    u64::try_from(chrono::Utc::now().timestamp_millis()).unwrap_or(0)
}

/// Builds a [`ResponseMeta`] around a query: records the start time on
/// construction and measures the elapsed duration when built.
pub struct ResponseMetaBuilder {
    /// Whether the query succeeded so far.
    pub status: ResponseStatus,
    /// The number of rows the response will carry.
    pub total: usize,
    /// Wall-clock milliseconds at which the builder was created.
    pub epoch: u64,
    /// Same clock reading, kept to measure the elapsed duration.
    pub start: u64,
}

impl ResponseMetaBuilder {
    /// Starts an envelope for a query that begins now.
    pub fn new() -> (r: Self)
        ensures
            r.status is Success,
            r.total == 0,
            r.epoch == r.start,
    {
        let now = now_epoch_millis();
        ResponseMetaBuilder { status: ResponseStatus::Success, total: 0, epoch: now, start: now }
    }

    /// Records the number of rows the response will carry.
    pub fn with_total(self, total: usize) -> (r: Self)
        ensures
            r.total == total,
            r.status == self.status,
            r.epoch == self.epoch,
            r.start == self.start,
    {
        ResponseMetaBuilder { total, ..self }
    }

    /// Marks the response as failed with the given message.
    pub fn with_error(self, error: String) -> (r: Self)
        ensures
            r.status == (ResponseStatus::Error { message: error }),
            r.total == self.total,
            r.epoch == self.epoch,
            r.start == self.start,
    {
        ResponseMetaBuilder { status: ResponseStatus::Error { message: error }, ..self }
    }

    /// Finishes the envelope; the duration is the wall-clock time elapsed
    /// since the builder was created, and depends on the clock.
    pub fn build(self) -> (r: ResponseMeta)
        ensures
            r.status == self.status,
            r.total == self.total,
            r.epoch == self.epoch,
    {
        let now = now_epoch_millis();
        let duration = if now >= self.start {
            now - self.start
        } else {
            0
        };
        ResponseMeta { status: self.status, total: self.total, epoch: self.epoch, duration }
    }
}

} // verus!
