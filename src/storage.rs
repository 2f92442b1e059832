//! Storage backends and the decisions of a chunked (multipart) upload.
//!
//! An object is uploaded in fixed-size chunks, one part per chunk, in order.
//! The upload is completed only after every part has succeeded; the first
//! failed part aborts it, so a partial object is never made visible. Parts are
//! not retried.
use vstd::prelude::*;

verus! {

/// Where data is stored.
pub enum Storage {
    LocalFileSystem { base_path: String },
    S3 {
        bucket: String,
        region: String,
        access_key_id: Option<String>,
        secret_access_key: Option<String>,
        /// For MinIO or custom endpoints.
        endpoint: Option<String>,
        prefix: Option<String>,
    },
}

/// Failures of a storage backend.
#[derive(Clone, Copy, Debug, PartialEq, Eq, Hash)]
pub enum StorageError {
    /// A part or the completion of an upload failed; the upload was aborted.
    UploadFailed,
    DeleteFailed,
    /// Missing credentials or an unreachable endpoint.
    NotAccessible,
}

/// The default size of one part: 10 MiB.
pub const DEFAULT_CHUNK_SIZE: usize = 10485760;

/// The number of parts of an object of `len` bytes.
pub open spec fn chunk_count(len: nat, chunk_size: nat) -> nat
    recommends
        chunk_size > 0,
{
    if len == 0 {
        0
    } else {
        ((len - 1) / chunk_size as int + 1) as nat
    }
}

/// The byte range of part `i`.
pub open spec fn chunk_range(len: nat, chunk_size: nat, i: nat) -> (nat, nat) {
    let start = i * chunk_size;
    let end = if start + chunk_size <= len {
        start + chunk_size
    } else {
        len
    };
    (start, end)
}

#[derive(Clone, Copy, Debug, PartialEq, Eq, Structural, Hash)]
pub enum UploadState {
    InProgress,
    Completed,
    Aborted,
}

/// What the caller does next for an upload.
#[derive(Clone, Copy, Debug, PartialEq, Eq, Hash)]
pub enum UploadAction {
    /// Send bytes `start..end` as the next part.
    PutPart { start: usize, end: usize },
    /// Finalize the upload: every part has succeeded.
    Complete,
    /// Abort the upload: a part failed.
    Abort,
    /// Nothing is left to do.
    Finished,
}

/// The progress of one multipart upload.
pub struct MultipartUpload {
    pub len: usize,
    pub chunk_size: usize,
    /// Parts that have succeeded so far.
    pub parts_done: usize,
    pub failed: bool,
    pub state: UploadState,
}

impl MultipartUpload {
    /// Parts that succeeded never outnumber the parts of the object, and a
    /// completed upload has had every part succeed.
    pub open spec fn wf(&self) -> bool {
        &&& self.chunk_size > 0
        &&& self.parts_done <= chunk_count(self.len as nat, self.chunk_size as nat)
        &&& (self.state == UploadState::Completed ==> !self.failed && self.parts_done
            == chunk_count(self.len as nat, self.chunk_size as nat))
        &&& (self.state == UploadState::Aborted ==> self.failed)
    }

    /// A fresh upload of `len` bytes in parts of `chunk_size` bytes.
    pub fn new(len: usize, chunk_size: usize) -> (r: MultipartUpload)
        requires
            chunk_size > 0,
        ensures
            r.wf(),
            r.len == len,
            r.chunk_size == chunk_size,
            r.parts_done == 0,
            !r.failed,
            r.state == UploadState::InProgress,
    {
        MultipartUpload { len, chunk_size, parts_done: 0, failed: false, state: UploadState::InProgress }
    }

    /// The next step: the next part while parts remain, then `Complete`; after
    /// a failure, `Abort`; once completed or aborted, `Finished`.
    pub fn next_action(&self) -> (r: UploadAction)
        requires
            self.wf(),
        ensures
            self.state != UploadState::InProgress ==> r == UploadAction::Finished,
            self.state == UploadState::InProgress && self.failed ==> r == UploadAction::Abort,
            self.state == UploadState::InProgress && !self.failed && self.parts_done == chunk_count(
                self.len as nat,
                self.chunk_size as nat,
            ) ==> r == UploadAction::Complete,
            self.state == UploadState::InProgress && !self.failed && self.parts_done < chunk_count(
                self.len as nat,
                self.chunk_size as nat,
            ) ==> (r matches UploadAction::PutPart { start, end } && (start as nat, end as nat)
                == chunk_range(self.len as nat, self.chunk_size as nat, self.parts_done as nat)
                && start < end),
    {
        if self.state != UploadState::InProgress {
            return UploadAction::Finished;
        }
        if self.failed {
            return UploadAction::Abort;
        }
        let done = self.parts_done;
        let size = self.chunk_size;
        let len = self.len;
        proof {
            lemma_chunk_start(len as nat, size as nat, done as nat);
        }
        if done == 0 && len == 0 {
            return UploadAction::Complete;
        }
        let start = match done.checked_mul(size) {
            None => return UploadAction::Complete,
            Some(p) => p,
        };
        if start >= len {
            return UploadAction::Complete;
        }
        let end = if len - start >= size {
            start + size
        } else {
            len
        };
        UploadAction::PutPart { start, end }
    }

    /// Records the outcome of the part just sent.
    pub fn on_part(&mut self, succeeded: bool)
        requires
            old(self).wf(),
            old(self).state == UploadState::InProgress,
            !old(self).failed,
            old(self).parts_done < chunk_count(old(self).len as nat, old(self).chunk_size as nat),
        ensures
            final(self).wf(),
            final(self).len == old(self).len,
            final(self).chunk_size == old(self).chunk_size,
            final(self).state == UploadState::InProgress,
            succeeded ==> final(self).parts_done == old(self).parts_done + 1 && !final(self).failed,
            !succeeded ==> final(self).parts_done == old(self).parts_done && final(self).failed,
    {
        if succeeded {
            self.parts_done = self.parts_done + 1;
        } else {
            self.failed = true;
        }
    }

    /// Records the outcome of the step `next_action` gave: `Complete` or
    /// `Abort`. A failed completion leaves the upload aborted.
    pub fn on_finish(&mut self, succeeded: bool)
        requires
            old(self).wf(),
            old(self).state == UploadState::InProgress,
            old(self).failed || old(self).parts_done == chunk_count(
                old(self).len as nat,
                old(self).chunk_size as nat,
            ),
        ensures
            final(self).wf(),
            final(self).parts_done == old(self).parts_done,
            !old(self).failed && succeeded ==> final(self).state == UploadState::Completed,
            old(self).failed || !succeeded ==> final(self).state == UploadState::Aborted,
    {
        if !self.failed && succeeded {
            self.state = UploadState::Completed;
        } else {
            self.failed = true;
            self.state = UploadState::Aborted;
        }
    }
}

/// While parts remain, part `done` starts inside the object; once they are
/// all sent, it starts at or past its end.
proof fn lemma_chunk_start(len: nat, size: nat, done: nat)
    requires
        size > 0,
        done <= chunk_count(len, size),
    ensures
        done < chunk_count(len, size) <==> done * size < len,
        done * size <= len + size,
{
    if len > 0 {
        let q = (len - 1) / size as int;
        assert(q * size <= len - 1 < (q + 1) * size) by (nonlinear_arith)
            requires
                q == (len - 1) / size as int,
                size > 0,
                len > 0,
        ;
        assert(done < q + 1 <==> done * size < len) by (nonlinear_arith)
            requires
                q * size <= len - 1 < (q + 1) * size,
                size > 0,
        ;
        assert(done * size <= (q + 1) * size) by (nonlinear_arith)
            requires
                done <= q + 1,
                size > 0,
        ;
        assert((q + 1) * size == q * size + size) by (nonlinear_arith);
    } else {
        assert(done == 0);
        assert(done * size == 0) by (nonlinear_arith)
            requires
                done == 0,
        ;
    }
}

/// The parts cover the object exactly: consecutive, without gaps or overlap,
/// the first starting at 0 and the last ending at its length.
pub proof fn lemma_chunks_cover(len: nat, size: nat, i: nat)
    requires
        size > 0,
        i < chunk_count(len, size),
    ensures
        chunk_range(len, size, i).0 < chunk_range(len, size, i).1,
        i == 0 ==> chunk_range(len, size, i).0 == 0,
        i + 1 < chunk_count(len, size) ==> chunk_range(len, size, i).1 == chunk_range(
            len,
            size,
            i + 1,
        ).0,
        i + 1 == chunk_count(len, size) ==> chunk_range(len, size, i).1 == len,
{
    lemma_chunk_start(len, size, i);
    lemma_chunk_start(len, size, i + 1);
    assert((i + 1) * size == i * size + size) by (nonlinear_arith);
}

} // verus!
