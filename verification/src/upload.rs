//! Uploading a finished take from the browser: start a session, send the
//! chunks in order, finalize, and report how it went.
use vstd::prelude::*;

use crate::console::{chunk_url, chunk_url_text, finalize_url, finalize_url_text};
use crate::text::{decimal, push_decimal, push_text};

verus! {

/// Where the browser's plain recordings are uploaded.
pub open spec fn recordings_base() -> Seq<char> {
    "/singeros/api/recordings"@
}

/// How a request of the upload went wrong.
pub enum RequestFailure {
    /// The request could not be built; the error's text.
    Build(String),
    /// The chunk's data could not be read; the error's text.
    Read(String),
    /// The server answered with a status outside 2xx.
    Http(u16),
    /// The request could not be sent; the error's text.
    Send(String),
    /// The answer could not be read as JSON; the error's text.
    Parse(String),
}

/// The next thing the uploader does.
pub enum UploadAction {
    PostChunk { seq: u64, url: String },
    PostFinalize { url: String },
    /// The upload is over; show this status.
    Report { status: String },
}

/// Where an upload stands.
pub enum UploadStage {
    /// Waiting for the answer to the start request.
    Starting,
    /// Sending chunk `next` of session `id`.
    Sending { id: String, next: u64 },
    /// Waiting for the answer to finalizing session `id`.
    Finalizing { id: String },
    Finished,
}

/// One upload of a take made of `chunk_count` chunks.
pub struct UploadRun {
    stage: UploadStage,
    chunk_count: u64,
}

pub open spec fn start_failure_text(f: RequestFailure) -> Seq<char> {
    match f {
        RequestFailure::Build(d) => "创建录音请求失败："@ + d@,
        RequestFailure::Http(s) => "创建录音失败："@ + ("HTTP "@ + decimal(s as nat)),
        RequestFailure::Parse(d) => "录音会话响应解析失败："@ + d@,
        RequestFailure::Read(d) => "创建录音失败："@ + d@,
        RequestFailure::Send(d) => "创建录音失败："@ + d@,
    }
}

pub open spec fn chunk_failure_text(seq: u64, f: RequestFailure) -> Seq<char> {
    match f {
        RequestFailure::Read(d) => "录音分片读取失败："@ + d@,
        RequestFailure::Build(d) => "录音分片请求失败："@ + d@,
        RequestFailure::Http(s) => "录音分片 "@ + decimal(seq as nat) + " 上传失败："@ + ("HTTP "@
            + decimal(s as nat)),
        RequestFailure::Send(d) => "录音分片 "@ + decimal(seq as nat) + " 上传失败："@ + d@,
        RequestFailure::Parse(d) => "录音分片 "@ + decimal(seq as nat) + " 上传失败："@ + d@,
    }
}

pub open spec fn finalize_failure_text(f: RequestFailure) -> Seq<char> {
    match f {
        RequestFailure::Build(d) => "录音完成请求失败："@ + d@,
        RequestFailure::Http(s) => "录音完成失败："@ + ("HTTP "@ + decimal(s as nat)),
        RequestFailure::Read(d) => "录音完成失败："@ + d@,
        RequestFailure::Send(d) => "录音完成失败："@ + d@,
        RequestFailure::Parse(d) => "录音完成失败："@ + d@,
    }
}

/// The request that follows once chunks `0..next` of session `id` arrived.
pub open spec fn after_chunks_sent(id: Seq<char>, next: u64, count: u64, a: UploadAction) -> bool {
    if next < count {
        a matches UploadAction::PostChunk { seq, url } && seq == next && url@ == chunk_url_text(
            recordings_base(),
            id,
            next,
        )
    } else {
        a matches UploadAction::PostFinalize { url } && url@ == finalize_url_text(recordings_base(), id)
    }
}

fn next_request(id: &str, next: u64, count: u64) -> (a: UploadAction)
    ensures
        after_chunks_sent(id@, next, count, a),
{
    if next < count {
        UploadAction::PostChunk { seq: next, url: chunk_url("/singeros/api/recordings", id, next) }
    } else {
        UploadAction::PostFinalize { url: finalize_url("/singeros/api/recordings", id) }
    }
}

fn describe(prefix: &str, f: RequestFailure) -> (r: String)
    ensures
        r@ == prefix@ + match f {
            RequestFailure::Build(d) => d@,
            RequestFailure::Read(d) => d@,
            RequestFailure::Send(d) => d@,
            RequestFailure::Parse(d) => d@,
            RequestFailure::Http(s) => "HTTP "@ + decimal(s as nat),
        },
{
    let mut s = prefix.to_owned();
    match f {
        RequestFailure::Build(d) => push_text(&mut s, d.as_str()),
        RequestFailure::Read(d) => push_text(&mut s, d.as_str()),
        RequestFailure::Send(d) => push_text(&mut s, d.as_str()),
        RequestFailure::Parse(d) => push_text(&mut s, d.as_str()),
        RequestFailure::Http(code) => {
            push_text(&mut s, "HTTP ");
            push_decimal(&mut s, code as u64);
            proof {
                assert(s@ =~= prefix@ + ("HTTP "@ + decimal(code as nat)));
            }
        },
    }
    s
}

impl UploadRun {
    #[verifier::type_invariant]
    spec fn well_staged(&self) -> bool {
        match self.stage {
            UploadStage::Sending { next, .. } => next < self.chunk_count,
            _ => true,
        }
    }

    pub closed spec fn spec_stage(&self) -> UploadStage {
        self.stage
    }

    pub closed spec fn spec_chunk_count(&self) -> u64 {
        self.chunk_count
    }

    /// Where the upload stands.
    pub fn stage(&self) -> (r: &UploadStage)
        ensures
            *r == self.spec_stage(),
    {
        &self.stage
    }

    /// A new upload; the first request is the start request.
    pub fn new(chunk_count: u64) -> (r: UploadRun)
        ensures
            r.spec_stage() is Starting,
            r.spec_chunk_count() == chunk_count,
    {
        UploadRun { stage: UploadStage::Starting, chunk_count }
    }

    /// The answer to the start request: the new session's id, `None` when
    /// the answer had no id, or how the request failed.
    pub fn on_started(&mut self, reply: Result<Option<String>, RequestFailure>) -> (a: UploadAction)
        requires
            old(self).spec_stage() is Starting,
        ensures
            final(self).spec_chunk_count() == old(self).spec_chunk_count(),
            match reply {
                Ok(Some(id)) => {
                    &&& after_chunks_sent(id@, 0, old(self).spec_chunk_count(), a)
                    &&& old(self).spec_chunk_count() > 0 ==> (final(self).spec_stage() matches UploadStage::Sending { id: sid, next } && sid == id && next == 0)
                    &&& old(self).spec_chunk_count() == 0 ==> (final(self).spec_stage() matches UploadStage::Finalizing { id: sid } && sid == id)
                },
                Ok(None) => final(self).spec_stage() is Finished && (a matches UploadAction::Report {
                    status,
                } && status@ == "录音会话缺少 id"@),
                Err(f) => final(self).spec_stage() is Finished && (a matches UploadAction::Report {
                    status,
                } && status@ == start_failure_text(f)),
            },
    {
        match reply {
            Ok(Some(id)) => {
                let a = next_request(id.as_str(), 0, self.chunk_count);
                if self.chunk_count == 0 {
                    self.stage = UploadStage::Finalizing { id };
                } else {
                    self.stage = UploadStage::Sending { id, next: 0 };
                }
                a
            },
            Ok(None) => {
                self.stage = UploadStage::Finished;
                UploadAction::Report { status: "录音会话缺少 id".to_owned() }
            },
            Err(f) => {
                self.stage = UploadStage::Finished;
                let prefix = match &f {
                    RequestFailure::Build(_) => "创建录音请求失败：",
                    RequestFailure::Parse(_) => "录音会话响应解析失败：",
                    _ => "创建录音失败：",
                };
                let ghost gf = f;
                let status = describe(prefix, f);
                proof {
                    match gf {
                        RequestFailure::Build(d) => assert(status@ =~= start_failure_text(gf)),
                        RequestFailure::Read(d) => assert(status@ =~= start_failure_text(gf)),
                        RequestFailure::Send(d) => assert(status@ =~= start_failure_text(gf)),
                        RequestFailure::Parse(d) => assert(status@ =~= start_failure_text(gf)),
                        RequestFailure::Http(c) => assert(status@ =~= start_failure_text(gf)),
                    }
                }
                UploadAction::Report { status }
            },
        }
    }

    /// The answer to the chunk being sent: `Ok` when it arrived.
    pub fn on_chunk_sent(&mut self, reply: Result<(), RequestFailure>) -> (a: UploadAction)
        requires
            old(self).spec_stage() is Sending,
        ensures
            final(self).spec_chunk_count() == old(self).spec_chunk_count(),
            match old(self).spec_stage() {
                UploadStage::Sending { id, next } => {
                let count = old(self).spec_chunk_count();
                match reply {
                    Ok(()) => {
                        &&& after_chunks_sent(id@, (next + 1) as u64, count, a)
                        &&& next + 1 < count ==> (final(self).spec_stage() matches UploadStage::Sending {
                            id: sid,
                            next: n2,
                        } && sid == id && n2 == next + 1)
                        &&& next + 1 >= count ==> (final(self).spec_stage() matches UploadStage::Finalizing {
                            id: sid,
                        } && sid == id)
                    },
                    Err(f) => final(self).spec_stage() is Finished && (a matches UploadAction::Report {
                        status,
                    } && status@ == chunk_failure_text(next, f)),
                }
                },
                _ => true,
            },
    {
        proof {
            use_type_invariant(&*self);
        }
        let count = self.chunk_count;
        let mut stage = UploadStage::Finished;
        std::mem::swap(&mut stage, &mut self.stage);
        let (id, next) = match stage {
            UploadStage::Sending { id, next } => (id, next),
            _ => {
                assert(false);
                return UploadAction::Report { status: String::new() };
            },
        };
        match reply {
            Ok(()) => {
                let a = next_request(id.as_str(), next + 1, count);
                if next + 1 >= count {
                    self.stage = UploadStage::Finalizing { id };
                } else {
                    self.stage = UploadStage::Sending { id, next: next + 1 };
                }
                a
            },
            Err(f) => {
                let prefix = match &f {
                    RequestFailure::Read(_) => "录音分片读取失败：".to_owned(),
                    RequestFailure::Build(_) => "录音分片请求失败：".to_owned(),
                    _ => {
                        let mut p = "录音分片 ".to_owned();
                        push_decimal(&mut p, next);
                        push_text(&mut p, " 上传失败：");
                        p
                    },
                };
                let ghost gf = f;
                let status = describe(prefix.as_str(), f);
                proof {
                    match gf {
                        RequestFailure::Build(d) => assert(status@ =~= chunk_failure_text(next, gf)),
                        RequestFailure::Read(d) => assert(status@ =~= chunk_failure_text(next, gf)),
                        RequestFailure::Send(d) => assert(status@ =~= chunk_failure_text(next, gf)),
                        RequestFailure::Parse(d) => assert(status@ =~= chunk_failure_text(next, gf)),
                        RequestFailure::Http(c) => assert(status@ =~= chunk_failure_text(next, gf)),
                    }
                }
                UploadAction::Report { status }
            },
        }
    }

    /// The answer to finalizing.
    pub fn on_finalized(&mut self, reply: Result<(), RequestFailure>) -> (a: UploadAction)
        requires
            old(self).spec_stage() is Finalizing,
        ensures
            final(self).spec_stage() is Finished,
            final(self).spec_chunk_count() == old(self).spec_chunk_count(),
            match old(self).spec_stage() {
                UploadStage::Finalizing { id } => match reply {
                    Ok(()) => a matches UploadAction::Report { status } && status@ == "录音已保存 · "@
                        + id@,
                    Err(f) => a matches UploadAction::Report { status } && status@
                        == finalize_failure_text(f),
                },
                _ => true,
            },
    {
        let mut stage = UploadStage::Finished;
        std::mem::swap(&mut stage, &mut self.stage);
        let id = match stage {
            UploadStage::Finalizing { id } => id,
            _ => {
                assert(false);
                return UploadAction::Report { status: String::new() };
            },
        };
        match reply {
            Ok(()) => {
                let mut s = "录音已保存 · ".to_owned();
                push_text(&mut s, id.as_str());
                UploadAction::Report { status: s }
            },
            Err(f) => {
                let prefix = match &f {
                    RequestFailure::Build(_) => "录音完成请求失败：",
                    _ => "录音完成失败：",
                };
                let ghost gf = f;
                let status = describe(prefix, f);
                proof {
                    match gf {
                        RequestFailure::Build(d) => assert(status@ =~= finalize_failure_text(gf)),
                        RequestFailure::Read(d) => assert(status@ =~= finalize_failure_text(gf)),
                        RequestFailure::Send(d) => assert(status@ =~= finalize_failure_text(gf)),
                        RequestFailure::Parse(d) => assert(status@ =~= finalize_failure_text(gf)),
                        RequestFailure::Http(c) => assert(status@ =~= finalize_failure_text(gf)),
                    }
                }
                UploadAction::Report { status }
            },
        }
    }
}

} // verus!
