//! The request/response protocol: one typed request paired statically with
//! its response, an envelope carrying a per-client id, and the line framing
//! that cuts a connection's byte stream into requests. The JSON text itself
//! is written and read by the program around the library.
use vstd::prelude::*;
use crate::error::{spec_message, VoreError};
use crate::text::{spec_rfind, rfind_byte};
use crate::virtual_machine::VirtualMachineInfo;

verus! {

#[derive(Clone, Debug, PartialEq)]
pub struct InfoRequest {}

#[derive(Clone, Debug, PartialEq)]
pub struct InfoResponse {
    pub name: String,
    pub version: String,
}

#[derive(Clone, Debug, PartialEq)]
pub struct ListRequest {}

#[derive(Clone, Debug)]
pub struct ListResponse {
    pub items: Vec<VirtualMachineInfo>,
}

#[derive(Clone, Debug)]
pub struct LoadRequest {
    pub toml: String,
    pub cdroms: Vec<String>,
    pub save: bool,
    pub working_directory: Option<String>,
}

#[derive(Clone, Debug)]
pub struct LoadResponse {
    pub info: VirtualMachineInfo,
}

#[derive(Clone, Debug)]
pub struct PrepareRequest {
    pub name: String,
    pub cdroms: Vec<String>,
}

#[derive(Clone, Debug, PartialEq)]
pub struct PrepareResponse {}

#[derive(Clone, Debug)]
pub struct StartRequest {
    pub name: String,
    pub cdroms: Vec<String>,
}

#[derive(Clone, Debug, PartialEq)]
pub struct StartResponse {}

#[derive(Clone, Debug)]
pub struct StopRequest {
    pub name: String,
}

#[derive(Clone, Debug, PartialEq)]
pub struct StopResponse {}

#[derive(Clone, Debug)]
pub struct UnloadRequest {
    pub name: String,
}

#[derive(Clone, Debug, PartialEq)]
pub struct UnloadResponse {}

#[derive(Clone, Debug)]
pub struct KillRequest {
    pub name: String,
}

#[derive(Clone, Debug, PartialEq)]
pub struct KillResponse {}

#[derive(Clone, Debug, PartialEq)]
pub struct DiskPreset {
    pub name: String,
    pub description: String,
}

#[derive(Clone, Debug, PartialEq)]
pub struct DiskPresetsRequest {}

#[derive(Clone, Debug)]
pub struct DiskPresetsResponse {
    pub presets: Vec<DiskPreset>,
}

/// Every request, tagged by its query name.
#[derive(Clone, Debug)]
pub enum AllRequests {
    Info(Box<InfoRequest>),
    List(Box<ListRequest>),
    Load(Box<LoadRequest>),
    Prepare(Box<PrepareRequest>),
    Start(Box<StartRequest>),
    Stop(Box<StopRequest>),
    Unload(Box<UnloadRequest>),
    Kill(Box<KillRequest>),
    DiskPresets(Box<DiskPresetsRequest>),
}

/// Every response, tagged by its answer name.
#[derive(Clone, Debug)]
pub enum AllResponses {
    Info(Box<InfoResponse>),
    List(Box<ListResponse>),
    Load(Box<LoadResponse>),
    Prepare(Box<PrepareResponse>),
    Start(Box<StartResponse>),
    Stop(Box<StopResponse>),
    Unload(Box<UnloadResponse>),
    Kill(Box<KillResponse>),
    DiskPresets(Box<DiskPresetsResponse>),
}

/// A request envelope: the client's running id and the tagged request.
#[derive(Clone, Debug)]
pub struct Command {
    pub id: u64,
    pub data: AllRequests,
}

/// The error payload of a failed answer.
#[derive(Clone, Debug, PartialEq)]
pub struct AnswerError {
    pub error: String,
}

/// The payload of an answer: a response, or the error text.
#[derive(Clone, Debug)]
pub enum AnswerResult {
    Error(AnswerError),
    Success(AllResponses),
}

/// An answer envelope, mirroring the id of the request it answers.
#[derive(Clone, Debug)]
pub struct Answer {
    pub id: u64,
    pub data: AnswerResult,
}

/// What reading an answer can fail with: the daemon's error text for the
/// request, or a fault of the transport itself.
#[derive(Clone, Debug)]
pub enum CommandError {
    AnswerError(u64, AnswerError),
    InternalError(String),
}

/// A request knows the enum arm it travels in and the response type paired
/// with it.
pub trait Request: Sized {
    type Response;

    spec fn spec_into_enum(self) -> AllRequests;

    fn into_enum(self) -> (r: AllRequests)
        ensures
            r == self.spec_into_enum(),
    ;
}

/// A response knows the enum arm it travels in.
pub trait Response: Sized {
    spec fn spec_into_enum(self) -> AllResponses;

    fn into_enum(self) -> (r: AllResponses)
        ensures
            r == self.spec_into_enum(),
    ;
}

impl Request for InfoRequest {
    type Response = InfoResponse;

    open spec fn spec_into_enum(self) -> AllRequests {
        AllRequests::Info(Box::new(self))
    }

    fn into_enum(self) -> (r: AllRequests) {
        AllRequests::Info(Box::new(self))
    }
}

impl Request for ListRequest {
    type Response = ListResponse;

    open spec fn spec_into_enum(self) -> AllRequests {
        AllRequests::List(Box::new(self))
    }

    fn into_enum(self) -> (r: AllRequests) {
        AllRequests::List(Box::new(self))
    }
}

impl Request for LoadRequest {
    type Response = LoadResponse;

    open spec fn spec_into_enum(self) -> AllRequests {
        AllRequests::Load(Box::new(self))
    }

    fn into_enum(self) -> (r: AllRequests) {
        AllRequests::Load(Box::new(self))
    }
}

impl Request for PrepareRequest {
    type Response = PrepareResponse;

    open spec fn spec_into_enum(self) -> AllRequests {
        AllRequests::Prepare(Box::new(self))
    }

    fn into_enum(self) -> (r: AllRequests) {
        AllRequests::Prepare(Box::new(self))
    }
}

impl Request for StartRequest {
    type Response = StartResponse;

    open spec fn spec_into_enum(self) -> AllRequests {
        AllRequests::Start(Box::new(self))
    }

    fn into_enum(self) -> (r: AllRequests) {
        AllRequests::Start(Box::new(self))
    }
}

impl Request for StopRequest {
    type Response = StopResponse;

    open spec fn spec_into_enum(self) -> AllRequests {
        AllRequests::Stop(Box::new(self))
    }

    fn into_enum(self) -> (r: AllRequests) {
        AllRequests::Stop(Box::new(self))
    }
}

impl Request for UnloadRequest {
    type Response = UnloadResponse;

    open spec fn spec_into_enum(self) -> AllRequests {
        AllRequests::Unload(Box::new(self))
    }

    fn into_enum(self) -> (r: AllRequests) {
        AllRequests::Unload(Box::new(self))
    }
}

impl Request for KillRequest {
    type Response = KillResponse;

    open spec fn spec_into_enum(self) -> AllRequests {
        AllRequests::Kill(Box::new(self))
    }

    fn into_enum(self) -> (r: AllRequests) {
        AllRequests::Kill(Box::new(self))
    }
}

impl Request for DiskPresetsRequest {
    type Response = DiskPresetsResponse;

    open spec fn spec_into_enum(self) -> AllRequests {
        AllRequests::DiskPresets(Box::new(self))
    }

    fn into_enum(self) -> (r: AllRequests) {
        AllRequests::DiskPresets(Box::new(self))
    }
}

impl Response for InfoResponse {
    open spec fn spec_into_enum(self) -> AllResponses {
        AllResponses::Info(Box::new(self))
    }

    fn into_enum(self) -> (r: AllResponses) {
        AllResponses::Info(Box::new(self))
    }
}

impl Response for ListResponse {
    open spec fn spec_into_enum(self) -> AllResponses {
        AllResponses::List(Box::new(self))
    }

    fn into_enum(self) -> (r: AllResponses) {
        AllResponses::List(Box::new(self))
    }
}

impl Response for LoadResponse {
    open spec fn spec_into_enum(self) -> AllResponses {
        AllResponses::Load(Box::new(self))
    }

    fn into_enum(self) -> (r: AllResponses) {
        AllResponses::Load(Box::new(self))
    }
}

impl Response for PrepareResponse {
    open spec fn spec_into_enum(self) -> AllResponses {
        AllResponses::Prepare(Box::new(self))
    }

    fn into_enum(self) -> (r: AllResponses) {
        AllResponses::Prepare(Box::new(self))
    }
}

impl Response for StartResponse {
    open spec fn spec_into_enum(self) -> AllResponses {
        AllResponses::Start(Box::new(self))
    }

    fn into_enum(self) -> (r: AllResponses) {
        AllResponses::Start(Box::new(self))
    }
}

impl Response for StopResponse {
    open spec fn spec_into_enum(self) -> AllResponses {
        AllResponses::Stop(Box::new(self))
    }

    fn into_enum(self) -> (r: AllResponses) {
        AllResponses::Stop(Box::new(self))
    }
}

impl Response for UnloadResponse {
    open spec fn spec_into_enum(self) -> AllResponses {
        AllResponses::Unload(Box::new(self))
    }

    fn into_enum(self) -> (r: AllResponses) {
        AllResponses::Unload(Box::new(self))
    }
}

impl Response for KillResponse {
    open spec fn spec_into_enum(self) -> AllResponses {
        AllResponses::Kill(Box::new(self))
    }

    fn into_enum(self) -> (r: AllResponses) {
        AllResponses::Kill(Box::new(self))
    }
}

impl Response for DiskPresetsResponse {
    open spec fn spec_into_enum(self) -> AllResponses {
        AllResponses::DiskPresets(Box::new(self))
    }

    fn into_enum(self) -> (r: AllResponses) {
        AllResponses::DiskPresets(Box::new(self))
    }
}

impl Request for AllRequests {
    type Response = AllResponses;

    open spec fn spec_into_enum(self) -> AllRequests {
        self
    }

    fn into_enum(self) -> (r: AllRequests) {
        self
    }
}

impl Response for AllResponses {
    open spec fn spec_into_enum(self) -> AllResponses {
        self
    }

    fn into_enum(self) -> (r: AllResponses) {
        self
    }
}

/// The client side's id counter: every request gets the next id.
#[derive(Debug)]
pub struct CommandCenter {
    pub id: u64,
}

impl CommandCenter {
    pub fn new() -> (r: CommandCenter)
        ensures
            r.id == 0,
    {
        CommandCenter { id: 0 }
    }

    /// Wraps a request in an envelope carrying the next id.
    pub fn write_command<R: Request>(&mut self, request: R) -> (r: (u64, Command))
        requires
            old(self).id < u64::MAX,
        ensures
            r.0 == old(self).id,
            final(self).id == old(self).id + 1,
            r.1.id == old(self).id,
            r.1.data == request.spec_into_enum(),
    {
        let command = Command { id: self.id, data: request.into_enum() };
        let id = self.id;
        self.id = self.id + 1;
        (id, command)
    }

    /// Wraps an outcome in an answer that mirrors the request's id: the one
    /// answer a request receives carries the id it was asked with.
    pub fn write_answer<R: Response>(request: &Command, answer: Result<R, VoreError>) -> (r:
        Answer)
        ensures
            r.id == request.id,
            answer is Ok ==> r.data == AnswerResult::Success(answer->Ok_0.spec_into_enum()),
            answer is Err ==> (r.data matches AnswerResult::Error(e) && e.error@ == spec_message(
                answer->Err_0,
            )),
    {
        match answer {
            Ok(data) => Answer { id: request.id, data: AnswerResult::Success(data.into_enum()) },
            Err(err) => Answer {
                id: request.id,
                data: AnswerResult::Error(AnswerError { error: err.message() }),
            },
        }
    }
}

// ---------------------------------------------------------------------------
// Line framing
// ---------------------------------------------------------------------------

/// Where a connection's buffer is cut: right after the last newline, or at
/// the start when no line is complete yet.
pub open spec fn spec_frame_cut(b: Seq<u8>) -> int {
    match spec_rfind(b, 10) {
        Some(i) => i + 1,
        None => 0,
    }
}

/// The non-empty lines of a byte run, split on newlines.
pub open spec fn spec_lines(b: Seq<u8>) -> Seq<Seq<u8>>
    decreases b.len(),
    via spec_lines_decreases
{
    if b.len() == 0 {
        Seq::empty()
    } else {
        match crate::text::spec_find(b, 10) {
            None => seq![b],
            Some(i) => if i == 0 {
                spec_lines(b.drop_first())
            } else {
                seq![b.take(i)] + spec_lines(b.skip(i + 1))
            },
        }
    }
}

#[via_fn]
proof fn spec_lines_decreases(b: Seq<u8>) {
    if b.len() > 0 {
        crate::text::lemma_find_first(b, 10);
    }
}

/// Cuts a connection's buffer into complete requests. While the peer is
/// open, everything after the last newline is kept for the next read; once
/// it closed, everything is taken and nothing is kept, so a trailing partial
/// line is dropped with the connection.
pub fn extract_frames(buffer: Vec<u8>, still_open: bool) -> (r: (Vec<Vec<u8>>, Vec<u8>))
    ensures
        still_open ==> r.1@ == buffer@.skip(spec_frame_cut(buffer@)) && r.0@.map_values(
            |l: Vec<u8>| l@,
        ) == spec_lines(buffer@.take(spec_frame_cut(buffer@))),
        !still_open ==> r.1@ == Seq::<u8>::empty() && r.0@.map_values(|l: Vec<u8>| l@)
            == spec_lines(buffer@),
{
    let buf_len = buffer.len();
    let cut: usize = if still_open {
        proof {
            crate::text::lemma_rfind_last(buffer@, 10);
        }
        match rfind_byte(buffer.as_slice(), 10) {
            Some(i) => i + 1,
            None => 0,
        }
    } else {
        buffer.len()
    };
    let ghost processed = if still_open {
        buffer@.take(spec_frame_cut(buffer@))
    } else {
        buffer@
    };
    let mut rest: Vec<u8> = Vec::new();
    let mut k: usize = cut;
    proof {
        if still_open {
            assert(rest@ =~= buffer@.skip(spec_frame_cut(buffer@)).take(0));
        }
    }
    while k < buffer.len()
        invariant
            cut <= k <= buffer@.len(),
            still_open ==> cut as int == spec_frame_cut(buffer@) && rest@ =~= buffer@.skip(
                cut as int,
            ).take(k - cut),
            !still_open ==> cut == buffer@.len() && rest@ =~= Seq::<u8>::empty(),
        decreases buffer.len() - k,
    {
        proof {
            assert(buffer@.skip(cut as int).take(k - cut + 1) =~= buffer@.skip(cut as int).take(
                k - cut,
            ).push(buffer@[k as int]));
        }
        rest.push(buffer[k]);
        k = k + 1;
    }
    proof {
        if still_open {
            assert(buffer@.skip(cut as int).take(buffer@.len() - cut) =~= buffer@.skip(
                cut as int,
            ));
        } else {
            assert(rest@ =~= Seq::<u8>::empty());
        }
    }
    let mut lines: Vec<Vec<u8>> = Vec::new();
    let mut start: usize = 0;
    let mut i: usize = 0;
    proof {
        assert(processed.skip(0) =~= processed);
        assert(lines@.map_values(|l: Vec<u8>| l@) =~= Seq::<Seq<u8>>::empty());
    }
    while i < cut
        invariant
            0 <= start <= i <= cut <= buffer@.len(),
            processed == (if still_open {
                buffer@.take(spec_frame_cut(buffer@))
            } else {
                buffer@
            }),
            still_open ==> cut as int == spec_frame_cut(buffer@),
            !still_open ==> cut == buffer@.len(),
            processed.len() == cut,
            forall|j: int| 0 <= j < processed.len() ==> processed[j] == buffer@[j],
            forall|j: int| start <= j < i ==> #[trigger] processed[j] != 10,
            spec_lines(processed) == lines@.map_values(|l: Vec<u8>| l@) + spec_lines(
                processed.skip(start as int),
            ),
        decreases cut - i,
    {
        if buffer[i] == 10 {
            if i > start {
                let ghost seg = processed.skip(start as int);
                proof {
                    crate::text::lemma_find_unique(seg, 10, i - start);
                    assert(seg.take(i - start) =~= processed.subrange(start as int, i as int));
                    assert(seg.skip(i - start + 1) =~= processed.skip(i as int + 1));
                }
                let line = vstd::slice::slice_to_vec(
                    vstd::slice::slice_subrange(buffer.as_slice(), start, i),
                );
                proof {
                    assert(line@ =~= processed.subrange(start as int, i as int));
                }
                let ghost before = lines@.map_values(|l: Vec<u8>| l@);
                lines.push(line);
                proof {
                    assert(lines@.map_values(|l: Vec<u8>| l@) =~= before.push(line@));
                    assert(before.push(line@) + spec_lines(processed.skip(i as int + 1))
                        =~= before + (seq![processed.subrange(start as int, i as int)]
                        + spec_lines(processed.skip(i as int + 1))));
                }
            } else {
                let ghost seg = processed.skip(start as int);
                proof {
                    crate::text::lemma_find_unique(seg, 10, 0);
                    assert(seg.drop_first() =~= processed.skip(start as int + 1));
                }
            }
            start = i + 1;
        }
        i = i + 1;
    }
    proof {
        let seg = processed.skip(start as int);
        if start == cut {
            assert(seg =~= Seq::<Seq<u8>>::empty().flatten());
            assert(seg.len() == 0);
            assert(spec_lines(seg) =~= Seq::<Seq<u8>>::empty());
        } else {
            assert(forall|j: int| 0 <= j < seg.len() ==> #[trigger] seg[j] != 10);
            crate::text::lemma_find_none(seg, 10);
            assert(spec_lines(seg) =~= seq![seg]);
        }
        if start < cut {
            // a complete run never ends without a newline while the peer is
            // open, so this tail only exists when the peer closed
            assert(lines@.map_values(|l: Vec<u8>| l@) + spec_lines(seg) == spec_lines(processed));
        }
    }
    if start < cut {
        let line = vstd::slice::slice_to_vec(
            vstd::slice::slice_subrange(buffer.as_slice(), start, cut),
        );
        proof {
            assert(line@ =~= processed.skip(start as int));
        }
        let ghost before = lines@.map_values(|l: Vec<u8>| l@);
        lines.push(line);
        proof {
            assert(lines@.map_values(|l: Vec<u8>| l@) =~= before.push(line@));
            assert(before.push(line@) =~= before + seq![processed.skip(start as int)]);
        }
    }
    (lines, rest)
}

} // verus!
