//! The task that writes to a connection: it takes the responses that the
//! broker leaves on the peer's queue and turns each into the frames to send.
//! A walk is streamed lazily, one frame for each step and one for the
//! summary, so that a slow connection slows the walk.

use crate::algo::dlog::{lemma_steps_bounded, DLogView, PollardsLog};
use crate::algo::factor::{lemma_rho_steps_bounded, FactorView, PollardsRSAFact};
use crate::codec::{field, le_bytes, lemma_field_at, BytesSer};
use crate::error::ServerError;
use crate::response::{Response, ResponseSerTag};
use vstd::prelude::*;

verus! {

/// What wakes the writer.
#[derive(Debug, PartialEq)]
pub enum Wakeup {
    /// The broker has left a response on the queue.
    Message { response: Response },
    /// The queue was closed.
    Closed,
    /// The reader has left and cancelled the connection.
    Cancelled,
}

/// What the writer is busy with.
#[allow(inconsistent_fields)]
#[derive(Debug, PartialEq)]
pub enum WriteJob {
    /// Nothing.
    Idle,
    /// One frame to send.
    Send { frame: ResponseSerTag },
    /// A walk for a logarithm to stream.
    Log { pollards: PollardsLog },
    /// A walk for a divisor to stream.
    RSA { pollards: PollardsRSAFact },
}

/// What a job is, mathematically.
#[allow(inconsistent_fields)]
pub enum JobView {
    /// Nothing to do.
    Idle,
    /// The bytes of one frame to send.
    Send { frame: Seq<u8> },
    /// A walk for a logarithm, as far as it has come.
    Log { walk: DLogView },
    /// A walk for a divisor, as far as it has come.
    RSA { walk: FactorView },
}

impl View for WriteJob {
    type V = JobView;

    open spec fn view(&self) -> JobView {
        match self {
            WriteJob::Idle => JobView::Idle,
            WriteJob::Send { frame } => JobView::Send { frame: frame@ },
            WriteJob::Log { pollards } => JobView::Log { walk: pollards@ },
            WriteJob::RSA { pollards } => JobView::RSA { walk: pollards@ },
        }
    }
}

/// The summary that ends the stream of a walk for a logarithm.
pub open spec fn log_summary(walk: DLogView, ratio_bits: u64) -> Response {
    match walk.solution() {
        Some(log) => Response::SuccessfulLog {
            log,
            g: walk.g as u64,
            h: walk.h as u64,
            p: walk.p as u64,
            ratio_bits,
        },
        None => Response::UnsuccessfulLog { g: walk.g as u64, h: walk.h as u64, p: walk.p as u64 },
    }
}

/// The summary that ends the stream of a walk for a divisor.
pub open spec fn rsa_summary(walk: FactorView, ratio_bits: u64) -> Response {
    match walk.factor {
        Some(p) => Response::SuccessfulRSA { p, q: (walk.n / (p as int)) as u64, ratio_bits },
        None => Response::UnsuccessfulRSA { n: walk.n as u64 },
    }
}

/// The frame that a job gives next, if it gives one, and the job after it.
/// A walk that has not ended is advanced and gives the record of the step; a
/// walk that has ended gives its summary, with the ratio that the host
/// supplies, and the job is done.
pub open spec fn emits(job: JobView, ratio_bits: u64) -> (Option<Seq<u8>>, JobView) {
    match job {
        JobView::Idle => (None, JobView::Idle),
        JobView::Send { frame } => (Some(frame), JobView::Idle),
        JobView::Log { walk } => if walk.finished() {
            (Some(log_summary(walk, ratio_bits).wire()), JobView::Idle)
        } else {
            (
                Some(Response::LogItem { item: walk.advance().item() }.wire()),
                JobView::Log { walk: walk.advance() },
            )
        },
        JobView::RSA { walk } => if walk.finished() {
            (Some(rsa_summary(walk, ratio_bits).wire()), JobView::Idle)
        } else {
            (
                Some(Response::RSAItem { item: walk.advance().item() }.wire()),
                JobView::RSA { walk: walk.advance() },
            )
        },
    }
}

/// The bytes of a frame, if there is one.
pub open spec fn bytes_of(frame: Option<ResponseSerTag>) -> Option<Seq<u8>> {
    match frame {
        Some(tag) => Some(tag@),
        None => None,
    }
}

/// The job is one that its walk admits.
pub open spec fn job_valid(job: JobView) -> bool {
    match job {
        JobView::Log { walk } => walk.valid(),
        JobView::RSA { walk } => walk.valid(),
        _ => true,
    }
}

/// What the writer makes of a wakeup: a job to do, the end of its work, or
/// an error. A response that needs no streaming becomes the one frame to
/// send; a walk becomes a stream; a response that only a stream may give is
/// not for the broker to leave. A queue that closes is an error; a
/// cancellation ends the work.
pub open spec fn wakes(
    peer_id: u128,
    wakeup: Wakeup,
    r: Result<Option<WriteJob>, ServerError>,
) -> bool {
    match wakeup {
        Wakeup::Cancelled => r == Ok::<Option<WriteJob>, ServerError>(None),
        Wakeup::Closed => r == Err::<Option<WriteJob>, ServerError>(
            ServerError::ChannelReceive { peer_id },
        ),
        Wakeup::Message { response } => match response {
            Response::ConnectionOk | Response::NotPrime { .. } | Response::Prime { .. } => r
                matches Ok(Some(job)) && job@ == (JobView::Send { frame: response.wire() }),
            Response::Log { pollards } => r matches Ok(Some(job)) && job@ == (JobView::Log {
                walk: pollards@,
            }),
            Response::RSA { pollards } => r matches Ok(Some(job)) && job@ == (JobView::RSA {
                walk: pollards@,
            }),
            _ => r == Err::<Option<WriteJob>, ServerError>(
                ServerError::IllegalResponse { peer_id, response },
            ),
        },
    }
}

/// The frames that a job gives, call after call, for as long as the host
/// supplies ratios and the job is not done.
pub open spec fn frames_of(job: JobView, ratios: Seq<u64>) -> Seq<Seq<u8>>
    decreases ratios.len(),
{
    if ratios.len() == 0 {
        Seq::empty()
    } else {
        match emits(job, ratios[0]).0 {
            Some(frame) => seq![frame] + frames_of(emits(job, ratios[0]).1, ratios.drop_first()),
            None => Seq::empty(),
        }
    }
}

/// The frame is the record of step `index` of a walk for a logarithm.
pub open spec fn is_log_step(frame: Seq<u8>, index: int) -> bool {
    frame[0] == 4 && field(frame, 1) == index
}

/// The frame is the summary of a walk for a logarithm.
pub open spec fn is_log_summary(frame: Seq<u8>) -> bool {
    frame[0] == 5 || frame[0] == 6
}

/// The frame is the record of step `index` of a walk for a divisor.
pub open spec fn is_rsa_step(frame: Seq<u8>, index: int) -> bool {
    frame[0] == 7 && field(frame, 1) == index
}

/// The frame is the summary of a walk for a divisor.
pub open spec fn is_rsa_summary(frame: Seq<u8>) -> bool {
    frame[0] == 8 || frame[0] == 9
}

/// The stream of a walk for a logarithm is in order: the frame in place `k`
/// is the record of the step `k + 1` steps on, unless it is the summary,
/// which is the last frame. So the record of a step comes before the record
/// of the next, and the summary after them all.
pub proof fn lemma_log_stream_in_order(walk: DLogView, ratios: Seq<u64>, k: int)
    requires
        walk.valid(),
        0 <= k < frames_of(JobView::Log { walk }, ratios).len(),
    ensures
        ({
            let out = frames_of(JobView::Log { walk }, ratios);
            is_log_step(out[k], walk.i + k + 1) || (is_log_summary(out[k]) && k == out.len() - 1)
        }),
    decreases ratios.len(),
{
    let job = JobView::Log { walk };
    let out = frames_of(job, ratios);
    let rest = ratios.drop_first();
    if walk.finished() {
        assert(frames_of(JobView::Idle, rest).len() == 0);
        let summary = log_summary(walk, ratios[0]);
        assert(out =~= seq![summary.wire()]);
        assert(summary.wire()[0] == 5 || summary.wire()[0] == 6);
    } else {
        let next = walk.advance();
        let item = next.item();
        lemma_steps_bounded(walk);
        assert(next.valid());
        if k == 0 {
            let tail = le_bytes(item.xi) + le_bytes(item.ai) + le_bytes(item.bi) + le_bytes(item.yi)
                + le_bytes(item.gi) + le_bytes(item.di);
            lemma_field_at(seq![4u8], item.i, tail);
            let frame = Response::LogItem { item }.wire();
            assert(seq![4u8] + le_bytes(item.i) + tail =~= frame);
            assert(frame[0] == 4);
            assert(out[0] == frame);
        } else {
            let later = frames_of(JobView::Log { walk: next }, rest);
            assert(out =~= seq![Response::LogItem { item }.wire()] + later);
            lemma_log_stream_in_order(next, rest, k - 1);
            assert(out[k] == later[k - 1]);
        }
    }
}

/// The stream of a walk for a divisor is in order: the frame in place `k` is
/// the record of the step `k + 1` steps on, unless it is the summary, which
/// is the last frame.
pub proof fn lemma_rsa_stream_in_order(walk: FactorView, ratios: Seq<u64>, k: int)
    requires
        walk.valid(),
        0 <= k < frames_of(JobView::RSA { walk }, ratios).len(),
    ensures
        ({
            let out = frames_of(JobView::RSA { walk }, ratios);
            is_rsa_step(out[k], walk.i + k + 1) || (is_rsa_summary(out[k]) && k == out.len() - 1)
        }),
    decreases ratios.len(),
{
    let job = JobView::RSA { walk };
    let out = frames_of(job, ratios);
    let rest = ratios.drop_first();
    if walk.finished() {
        assert(frames_of(JobView::Idle, rest).len() == 0);
        let summary = rsa_summary(walk, ratios[0]);
        assert(out =~= seq![summary.wire()]);
        assert(summary.wire()[0] == 8 || summary.wire()[0] == 9);
    } else {
        let next = walk.advance();
        let item = next.item();
        lemma_rho_steps_bounded(walk);
        assert(next.valid()) by {
            crate::algo::factor::lemma_rho_divisor(next.n, next.i);
        }
        if k == 0 {
            let tail = le_bytes(item.xi) + le_bytes(item.yi) + le_bytes(item.g) + le_bytes(item.n)
                + crate::codec::zeros(16);
            lemma_field_at(seq![7u8], item.i, tail);
            let frame = Response::RSAItem { item }.wire();
            assert(seq![7u8] + le_bytes(item.i) + tail =~= frame);
            assert(frame[0] == 7);
            assert(out[0] == frame);
        } else {
            let later = frames_of(JobView::RSA { walk: next }, rest);
            assert(out =~= seq![Response::RSAItem { item }.wire()] + later);
            lemma_rsa_stream_in_order(next, rest, k - 1);
            assert(out[k] == later[k - 1]);
        }
    }
}

impl WriteJob {
    /// Decides what the writer of `peer_id` does on a wakeup.
    pub fn on_wakeup(peer_id: u128, wakeup: Wakeup) -> (r: Result<Option<WriteJob>, ServerError>)
        ensures
            wakes(peer_id, wakeup, r),
    {
        match wakeup {
            Wakeup::Cancelled => Ok(None),
            Wakeup::Closed => Err(ServerError::ChannelReceive { peer_id }),
            Wakeup::Message { response } => match response {
                Response::ConnectionOk => Ok(Some(WriteJob::Send { frame: response.serialize() })),
                Response::NotPrime { .. } => Ok(
                    Some(WriteJob::Send { frame: response.serialize() }),
                ),
                Response::Prime { .. } => Ok(Some(WriteJob::Send { frame: response.serialize() })),
                Response::Log { pollards } => Ok(Some(WriteJob::Log { pollards })),
                Response::RSA { pollards } => Ok(Some(WriteJob::RSA { pollards })),
                other => Err(ServerError::IllegalResponse { peer_id, response: other }),
            },
        }
    }

    /// The steps taken by the walk that the job streams, and its modulus:
    /// what the host needs for the ratio of a summary.
    pub fn progress(&self) -> (r: Option<(u64, u64)>)
        ensures
            match self@ {
                JobView::Log { walk } => r == Some((walk.i as u64, walk.p as u64)) && walk.valid(),
                JobView::RSA { walk } => r == Some((walk.i as u64, walk.n as u64)) && walk.valid(),
                _ => r is None,
            },
    {
        match self {
            WriteJob::Log { pollards } => Some((pollards.steps(), pollards.p())),
            WriteJob::RSA { pollards } => Some((pollards.steps(), pollards.n())),
            _ => None,
        }
    }

    /// The next frame to send for the job, or none when the job is done.
    /// `ratio_bits` is the ratio of the steps taken to the square root of the
    /// modulus, for the job as it stands; it goes into the summary of a
    /// walk.
    pub fn next_frame(&mut self, ratio_bits: u64) -> (r: Option<ResponseSerTag>)
        ensures
            job_valid(old(self)@),
            job_valid(final(self)@),
            bytes_of(r) == emits(old(self)@, ratio_bits).0,
            final(self)@ == emits(old(self)@, ratio_bits).1,
    {
        let mut job = WriteJob::Idle;
        std::mem::swap(self, &mut job);
        match job {
            WriteJob::Idle => None,
            WriteJob::Send { frame } => Some(frame),
            WriteJob::Log { mut pollards } => {
                match pollards.next() {
                    Some(item) => {
                        proof {
                            item.lemma_shows_item(pollards@);
                        }
                        *self = WriteJob::Log { pollards };
                        Some(Response::LogItem { item }.serialize())
                    },
                    None => {
                        let g = pollards.g();
                        let h = pollards.h();
                        let p = pollards.p();
                        let summary = match pollards.solve() {
                            Ok(Some(log)) => Response::SuccessfulLog { log, g, h, p, ratio_bits },
                            _ => Response::UnsuccessfulLog { g, h, p },
                        };
                        Some(summary.serialize())
                    },
                }
            },
            WriteJob::RSA { mut pollards } => {
                match pollards.next() {
                    Some(item) => {
                        proof {
                            item.lemma_shows_item(pollards@);
                        }
                        *self = WriteJob::RSA { pollards };
                        Some(Response::RSAItem { item }.serialize())
                    },
                    None => {
                        let n = pollards.n();
                        let summary = match pollards.factor() {
                            Some(p) => Response::SuccessfulRSA { p, q: n / p, ratio_bits },
                            None => Response::UnsuccessfulRSA { n },
                        };
                        Some(summary.serialize())
                    },
                }
            },
        }
    }
}

} // verus!
