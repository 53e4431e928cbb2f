//! Applier rules: how many downloaded bytes an operation may consume, and
//! the size and hash checks that decide whether its result is committed.
use vstd::prelude::*;

use crate::metadata::{Operation, opt_name};
use crate::names::Sha1Hash;
use crate::state::{UpdatePosition, pos_le};

verus! {

/// Which check an operation failed.
#[derive(Debug, Clone, Copy, PartialEq, Eq, Structural)]
pub enum Mismatch {
    DataSize,
    DataSha1,
    FinalSize,
    FinalSha1,
}

/// A size that must match: `Ok` when it does, else `err`.
pub fn assert_eq(found: u64, expected: u64, err: Mismatch) -> (r: Result<(), Mismatch>)
    ensures
        r is Ok <==> found == expected,
        r is Err ==> r == Err::<(), Mismatch>(err),
{
    if found != expected {
        Err(err)
    } else {
        Ok(())
    }
}

/// A hash that must match: `Ok` when it does, else `err`.
pub fn assert_hash_eq(found: &Sha1Hash, expected: &Sha1Hash, err: Mismatch) -> (r: Result<
    (),
    Mismatch,
>)
    ensures
        r is Ok <==> found@ == expected@,
        r is Err ==> r == Err::<(), Mismatch>(err),
{
    if !found.equals(expected) {
        Err(err)
    } else {
        Ok(())
    }
}

/// Bytes of operation `operation_idx` that the applier may read now, having
/// read `done` of the `expected` ones, with a buffer of `buffer` bytes: all
/// that is left once the downloader is past the operation, else no more
/// than what it has written.
pub open spec fn readable(available: UpdatePosition, operation_idx: usize, done: u64, expected: u64, buffer: u64) -> u64 {
    let left: int = if done <= expected {
        expected - done
    } else {
        0
    };
    let ready: int = if available.operation_idx > operation_idx {
        left
    } else if available.operation_idx == operation_idx && done <= available.byte_idx {
        if available.byte_idx - done < left {
            available.byte_idx - done
        } else {
            left
        }
    } else {
        0
    };
    (if ready < buffer {
        ready
    } else {
        buffer as int
    }) as u64
}

/// How many bytes the applier may read now (see `readable`).
pub fn bytes_to_apply(
    available: UpdatePosition,
    operation_idx: usize,
    done: u64,
    expected: u64,
    buffer: u64,
) -> (r: u64)
    ensures
        r == readable(available, operation_idx, done, expected, buffer),
        done + r <= expected || r == 0,
        r <= buffer,
        pos_le(
            UpdatePosition { operation_idx, byte_idx: (done + r) as u64 },
            available,
        ) || r == 0,
{
    let left = if done <= expected {
        expected - done
    } else {
        0
    };
    let ready = if available.operation_idx > operation_idx {
        left
    } else if available.operation_idx == operation_idx {
        if done <= available.byte_idx {
            if available.byte_idx - done < left {
                available.byte_idx - done
            } else {
                left
            }
        } else {
            0
        }
    } else {
        0
    };
    if ready < buffer {
        ready
    } else {
        buffer
    }
}

/// The applied watermark never passes the available one: reading what
/// `readable` allows keeps `applied <= available`.
pub proof fn lemma_applied_le_available(
    available: UpdatePosition,
    operation_idx: usize,
    done: u64,
    expected: u64,
    buffer: u64,
)
    requires
        pos_le(UpdatePosition { operation_idx, byte_idx: done }, available),
    ensures
        pos_le(
            UpdatePosition {
                operation_idx,
                byte_idx: (done + readable(available, operation_idx, done, expected, buffer)) as u64,
            },
            available,
        ),
{
}

/// What a written operation (`Add` or `Patch`) must match before it is
/// committed.
#[derive(Debug)]
pub struct WriteExpectation {
    pub data_size: u64,
    pub data_sha1: Sha1Hash,
    pub final_size: u64,
    pub final_sha1: Sha1Hash,
}

/// What the decoder saw.
#[derive(Debug)]
pub struct WriteOutcome {
    pub data_size: u64,
    pub data_sha1: Sha1Hash,
    pub final_size: u64,
    pub final_sha1: Sha1Hash,
}

/// The result of a written operation is committed only if its input
/// (downloaded data) and its output (final file) have the expected sizes
/// and hashes; the first mismatch, in the order data hash, data size, final
/// hash, final size, is reported otherwise.
pub fn check_write(expected: &WriteExpectation, found: &WriteOutcome) -> (r: Result<(), Mismatch>)
    ensures
        r is Ok <==> (found.data_sha1@ == expected.data_sha1@ && found.data_size
            == expected.data_size && found.final_sha1@ == expected.final_sha1@ && found.final_size
            == expected.final_size),
        found.data_sha1@ != expected.data_sha1@ ==> r == Err::<(), Mismatch>(Mismatch::DataSha1),
        found.data_sha1@ == expected.data_sha1@ && found.data_size != expected.data_size ==> r
            == Err::<(), Mismatch>(Mismatch::DataSize),
        found.data_sha1@ == expected.data_sha1@ && found.data_size == expected.data_size
            && found.final_sha1@ != expected.final_sha1@ ==> r == Err::<(), Mismatch>(
            Mismatch::FinalSha1,
        ),
        found.data_sha1@ == expected.data_sha1@ && found.data_size == expected.data_size
            && found.final_sha1@ == expected.final_sha1@ && found.final_size != expected.final_size
            ==> r == Err::<(), Mismatch>(Mismatch::FinalSize),
{
    assert_hash_eq(&found.data_sha1, &expected.data_sha1, Mismatch::DataSha1)?;
    assert_eq(found.data_size, expected.data_size, Mismatch::DataSize)?;
    assert_hash_eq(&found.final_sha1, &expected.final_sha1, Mismatch::FinalSha1)?;
    assert_eq(found.final_size, expected.final_size, Mismatch::FinalSize)?;
    Ok(())
}

/// Verifies an existing file (or slice) against its expected size and hash.
#[derive(Debug)]
pub struct CheckApplier {
    final_size_expected: u64,
    final_sha1_expected: Sha1Hash,
}

impl CheckApplier {
    pub fn new(final_size: u64, final_sha1: Sha1Hash) -> (r: CheckApplier)
        ensures
            r.expected_size() == final_size,
            r.expected_sha1() == final_sha1@,
    {
        CheckApplier { final_size_expected: final_size, final_sha1_expected: final_sha1 }
    }

    pub closed spec fn expected_size(&self) -> u64 {
        self.final_size_expected
    }

    pub closed spec fn expected_sha1(&self) -> Seq<u8> {
        self.final_sha1_expected@
    }

    /// Bytes to read and hash.
    pub fn expected_check_bytes(&self) -> (r: u64)
        ensures
            r == self.expected_size(),
    {
        self.final_size_expected
    }

    /// Whether what was read matches: the size first, then the hash.
    pub fn commit(&self, read_bytes: u64, sha1: &Sha1Hash) -> (r: Result<(), Mismatch>)
        ensures
            r is Ok <==> read_bytes == self.expected_size() && sha1@ == self.expected_sha1(),
            read_bytes != self.expected_size() ==> r == Err::<(), Mismatch>(Mismatch::FinalSize),
            read_bytes == self.expected_size() && sha1@ != self.expected_sha1() ==> r == Err::<
                (),
                Mismatch,
            >(Mismatch::FinalSha1),
    {
        assert_eq(read_bytes, self.final_size_expected, Mismatch::FinalSize)?;
        assert_hash_eq(sha1, &self.final_sha1_expected, Mismatch::FinalSha1)
    }
}

/// How an operation's file is handled.
#[derive(Debug, Clone, Copy, PartialEq, Eq, Structural)]
pub enum HandlerKind {
    /// One file per operation
    Direct,
    /// Many operations, one per slice, make one file
    Sliced,
}

/// Why an operation cannot be handled.
#[derive(Debug, Clone, Copy, PartialEq, Eq, Structural)]
pub enum HandlerError {
    /// The operation names a slice handler that does not exist
    UnsupportedHandler,
}

/// The slice handler an operation names, if any.
pub open spec fn handler_name(o: Operation) -> Option<Seq<char>> {
    match o {
        Operation::Add(a) => opt_name(a.common.slice_handler),
        Operation::Patch(p) => opt_name(p.common.slice_handler),
        Operation::Check(c) => opt_name(c.common.slice_handler),
        _ => None,
    }
}

/// The handler of an operation: the sliced one when it names `sliced`, the
/// direct one when it names none; any other name is refused.
pub fn handler_for(o: &Operation) -> (r: Result<HandlerKind, HandlerError>)
    ensures
        handler_name(*o) is None ==> r == Ok::<HandlerKind, HandlerError>(HandlerKind::Direct),
        handler_name(*o) == Some(seq!['s', 'l', 'i', 'c', 'e', 'd']) ==> r == Ok::<
            HandlerKind,
            HandlerError,
        >(HandlerKind::Sliced),
        handler_name(*o) is Some && handler_name(*o) != Some(seq!['s', 'l', 'i', 'c', 'e', 'd'])
            ==> r == Err::<HandlerKind, HandlerError>(HandlerError::UnsupportedHandler),
{
    match o.slice_handler() {
        Some(h) => {
            let sliced = "sliced";
            proof {
                reveal_strlit("sliced");
                assert(sliced@ =~= seq!['s', 'l', 'i', 'c', 'e', 'd']);
            }
            if h.as_str().to_owned() == sliced.to_owned() {
                Ok(HandlerKind::Sliced)
            } else {
                Err(HandlerError::UnsupportedHandler)
            }
        },
        None => Ok(HandlerKind::Direct),
    }
}

/// What the sliced handler does with a whole file: build it from new
/// slices, rebuild it from the local one, or only check it. Chosen by the
/// file's first operation.
#[derive(Debug, Clone, Copy, PartialEq, Eq, Structural)]
pub enum SlicedMode {
    Add,
    Patch,
    Check,
}

/// What the sliced handler does with one operation.
#[derive(Debug, Clone, Copy, PartialEq, Eq, Structural)]
pub enum SliceAction {
    /// Nothing for this operation
    Skip,
    /// Decode new slice data and append it to the new file
    Write,
    /// Patch the local slice into the new file
    PatchSlice,
    /// Copy an unchanged local slice into the new file, checking it
    CopySlice,
    /// Check a local slice in place
    VerifySlice,
}

/// Why the sliced handler refuses an operation.
#[derive(Debug, Clone, Copy, PartialEq, Eq, Structural)]
pub enum SliceError {
    /// The first operation of a sliced file must add, patch or check it
    BadFirstOperation,
    /// The operation makes no sense in this mode (only with strict metadata)
    Meta,
}

/// The mode the first operation of a sliced file selects.
pub fn sliced_mode(first: &Operation) -> (r: Result<SlicedMode, SliceError>)
    ensures
        first is Add ==> r == Ok::<SlicedMode, SliceError>(SlicedMode::Add),
        first is Patch ==> r == Ok::<SlicedMode, SliceError>(SlicedMode::Patch),
        first is Check ==> r == Ok::<SlicedMode, SliceError>(SlicedMode::Check),
        !(first is Add || first is Patch || first is Check) ==> r == Err::<SlicedMode, SliceError>(
            SliceError::BadFirstOperation,
        ),
{
    match first {
        Operation::Add(_) => Ok(SlicedMode::Add),
        Operation::Patch(_) => Ok(SlicedMode::Patch),
        Operation::Check(_) => Ok(SlicedMode::Check),
        _ => Err(SliceError::BadFirstOperation),
    }
}

/// An operation that makes no sense here: refused with strict metadata,
/// skipped (with a warning) otherwise.
pub open spec fn meta_issue(strict_meta: bool) -> Result<SliceAction, SliceError> {
    if strict_meta {
        Err(SliceError::Meta)
    } else {
        Ok(SliceAction::Skip)
    }
}

/// The sliced handler's table: what an operation does in a mode.
pub open spec fn slice_action_of(mode: SlicedMode, o: Operation, check: bool, strict_meta: bool) -> Result<
    SliceAction,
    SliceError,
> {
    match o {
        Operation::Add(_) => if o.spec_slice() is None {
            Ok(SliceAction::Skip)
        } else {
            match mode {
                SlicedMode::Check => meta_issue(strict_meta),
                _ => Ok(SliceAction::Write),
            }
        },
        Operation::Patch(_) => if o.spec_slice() is None {
            Ok(SliceAction::Skip)
        } else {
            match mode {
                SlicedMode::Patch => Ok(SliceAction::PatchSlice),
                _ => meta_issue(strict_meta),
            }
        },
        Operation::Check(_) => if o.spec_slice() is None {
            Ok(SliceAction::Skip)
        } else {
            match mode {
                SlicedMode::Add => meta_issue(strict_meta),
                SlicedMode::Patch => Ok(SliceAction::CopySlice),
                SlicedMode::Check => if check {
                    Ok(SliceAction::VerifySlice)
                } else {
                    Ok(SliceAction::Skip)
                },
            }
        },
        Operation::Rm(_) => if o.spec_slice() is None {
            meta_issue(strict_meta)
        } else {
            Ok(SliceAction::Skip)
        },
        _ => meta_issue(strict_meta),
    }
}

fn meta(strict_meta: bool) -> (r: Result<SliceAction, SliceError>)
    ensures
        r == meta_issue(strict_meta),
{
    if strict_meta {
        Err(SliceError::Meta)
    } else {
        Ok(SliceAction::Skip)
    }
}

/// What the sliced handler does with `o` in `mode`; `check` asks for local
/// slices to be verified in check mode.
pub fn slice_action(mode: SlicedMode, o: &Operation, check: bool, strict_meta: bool) -> (r: Result<
    SliceAction,
    SliceError,
>)
    ensures
        r == slice_action_of(mode, *o, check, strict_meta),
{
    let has_slice = o.slice().is_some();
    match o {
        Operation::Add(_) => if !has_slice {
            Ok(SliceAction::Skip)
        } else {
            match mode {
                SlicedMode::Check => meta(strict_meta),
                _ => Ok(SliceAction::Write),
            }
        },
        Operation::Patch(_) => if !has_slice {
            Ok(SliceAction::Skip)
        } else {
            match mode {
                SlicedMode::Patch => Ok(SliceAction::PatchSlice),
                _ => meta(strict_meta),
            }
        },
        Operation::Check(_) => if !has_slice {
            Ok(SliceAction::Skip)
        } else {
            match mode {
                SlicedMode::Add => meta(strict_meta),
                SlicedMode::Patch => Ok(SliceAction::CopySlice),
                SlicedMode::Check => if check {
                    Ok(SliceAction::VerifySlice)
                } else {
                    Ok(SliceAction::Skip)
                },
            }
        },
        Operation::Rm(_) => if !has_slice {
            meta(strict_meta)
        } else {
            Ok(SliceAction::Skip)
        },
        _ => meta(strict_meta),
    }
}

} // verus!
