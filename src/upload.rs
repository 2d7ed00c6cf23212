//! Vetting of one uploaded batch item, and the status tags of a batch.
use vstd::prelude::*;
use crate::format::{allowed_upload_format, is_allowed_upload_format};
use base64::Engine;

verus! {

/// Largest accepted decoded payload: 50 MiB.
pub const MAX_UPLOAD_BYTES: usize = 52428800;

/// The outcome of one batch item.
#[derive(Clone, Copy, Debug, PartialEq, Eq, Structural)]
pub enum ItemStatus {
    Success,
    UnsupportedFormat,
    DecodeFailed,
    FileTooLarge,
    SaveFailed,
    MissingSourcePath,
    CompressFailed,
}

pub open spec fn status_tag(s: ItemStatus) -> Seq<char> {
    match s {
        ItemStatus::Success => "success"@,
        ItemStatus::UnsupportedFormat => "unsupported_format"@,
        ItemStatus::DecodeFailed => "decode_failed"@,
        ItemStatus::FileTooLarge => "file_too_large"@,
        ItemStatus::SaveFailed => "save_failed"@,
        ItemStatus::MissingSourcePath => "missing_source_path"@,
        ItemStatus::CompressFailed => "compress_failed"@,
    }
}

impl ItemStatus {
    /// The short machine-readable tag reported for this status.
    pub fn tag(&self) -> (r: &'static str)
        ensures
            r@ == status_tag(*self),
    {
        match self {
            ItemStatus::Success => "success",
            ItemStatus::UnsupportedFormat => "unsupported_format",
            ItemStatus::DecodeFailed => "decode_failed",
            ItemStatus::FileTooLarge => "file_too_large",
            ItemStatus::SaveFailed => "save_failed",
            ItemStatus::MissingSourcePath => "missing_source_path",
            ItemStatus::CompressFailed => "compress_failed",
        }
    }
}

/// One result row of an upload batch: the item's name, its sizes before
/// and after, its status tag, and the caller's index.
pub type UploadRow = (String, u64, u64, String, u32);

/// The row reported for an item: its sizes and `success` where it was
/// compressed, else zero sizes and the failure's tag.
pub fn upload_row(name: String, index: u32, outcome: Result<(u64, u64), ItemStatus>) -> (r: UploadRow)
    ensures
        r.0 == name,
        r.4 == index,
        match outcome {
            Ok(sizes) => r.1 == sizes.0 && r.2 == sizes.1 && r.3@ == status_tag(ItemStatus::Success),
            Err(s) => r.1 == 0 && r.2 == 0 && r.3@ == status_tag(s),
        },
{
    match outcome {
        Ok((before, after)) => (name, before, after, String::from_str(ItemStatus::Success.tag()), index),
        Err(s) => (name, 0, 0, String::from_str(s.tag()), index),
    }
}

/// One result row of a path-based batch: the path, its sizes before and
/// after, and `success` or `error: <message>`.
pub type PathRow = (String, u64, u64, String);

/// The row reported for a path: its sizes and `success` where it was
/// compressed, else zero sizes and the error's message.
pub fn path_row(path: String, outcome: Result<(u64, u64), String>) -> (r: PathRow)
    ensures
        r.0 == path,
        match outcome {
            Ok(sizes) => r.1 == sizes.0 && r.2 == sizes.1 && r.3@ == status_tag(ItemStatus::Success),
            Err(m) => r.1 == 0 && r.2 == 0 && r.3@ == "error: "@ + m@,
        },
{
    match outcome {
        Ok((before, after)) => (path, before, after, String::from_str(ItemStatus::Success.tag())),
        Err(m) => {
            let mut s = String::from_str("error: ");
            s.append(m.as_str());
            (path, 0, 0, s)
        },
    }
}

/// What standard base64 (RFC 4648 alphabet, padded) decoding makes of a
/// text, or `None` where the text is malformed.
pub uninterp spec fn base64_decoded(s: Seq<char>) -> Option<Seq<u8>>;

/// Relies on base64's `STANDARD` engine `decode`: the decoded bytes, or an
/// error for malformed input; a function of the text alone.
#[verifier::external_body]
fn decode_base64(data: &str) -> (r: Option<Vec<u8>>)
    ensures
        match base64_decoded(data@) {
            Some(b) => r matches Some(v) && v@ == b,
            None => r is None,
        },
{
    base64::engine::general_purpose::STANDARD.decode(data).ok()
}

pub open spec fn bytes_of(v: Option<Vec<u8>>) -> Option<Seq<u8>> {
    match v {
        Some(b) => Some(b@),
        None => None,
    }
}

/// The status owed to a payload whose decoding gave `decoded`, or `None`
/// where it is accepted.
pub open spec fn payload_rejection(decoded: Option<Seq<u8>>) -> Option<ItemStatus> {
    match decoded {
        None => Some(ItemStatus::DecodeFailed),
        Some(b) => if b.len() > MAX_UPLOAD_BYTES {
            Some(ItemStatus::FileTooLarge)
        } else {
            None
        },
    }
}

/// Checks a decoded payload: `DecodeFailed` where decoding failed,
/// `FileTooLarge` above 50 MiB, else the bytes.
pub fn check_payload(decoded: Option<Vec<u8>>) -> (r: Result<Vec<u8>, ItemStatus>)
    ensures
        match payload_rejection(bytes_of(decoded)) {
            Some(s) => r == Err::<Vec<u8>, ItemStatus>(s),
            None => r matches Ok(v) && decoded matches Some(d) && v@ == d@,
        },
{
    match decoded {
        None => Err(ItemStatus::DecodeFailed),
        Some(bytes) => {
            if bytes.len() > MAX_UPLOAD_BYTES {
                Err(ItemStatus::FileTooLarge)
            } else {
                Ok(bytes)
            }
        },
    }
}

/// Vets one upload item in order: its declared format must be on the
/// allow-list (`UnsupportedFormat`), its payload must be valid base64
/// (`DecodeFailed`) of at most 50 MiB (`FileTooLarge`). Returns the decoded
/// bytes otherwise.
pub fn vet_upload(format: &str, data: &str) -> (r: Result<Vec<u8>, ItemStatus>)
    ensures
        !allowed_upload_format(format@) ==> r == Err::<Vec<u8>, ItemStatus>(
            ItemStatus::UnsupportedFormat,
        ),
        allowed_upload_format(format@) ==> match payload_rejection(base64_decoded(data@)) {
            Some(s) => r == Err::<Vec<u8>, ItemStatus>(s),
            None => r matches Ok(v) && base64_decoded(data@) == Some(v@),
        },
{
    if !is_allowed_upload_format(format) {
        return Err(ItemStatus::UnsupportedFormat);
    }
    let decoded = decode_base64(data);
    assert(bytes_of(decoded) == base64_decoded(data@));
    check_payload(decoded)
}

/// Where a compressed item goes, and which file stands as its original.
#[derive(Clone, Copy, Debug, PartialEq, Eq, Structural)]
pub enum Destination {
    /// Into the output directory; the original is the caller's prior path
    /// when there is one, else the scratch copy.
    OutputDir { original_is_prior: bool },
    /// Over the caller's prior path, which is also the original.
    OverwritePrior,
}

/// Resolves an item's destination: an output directory wins; else the prior
/// path is overwritten; with neither, `MissingSourcePath`.
pub fn resolve_destination(has_output_dir: bool, has_prior_path: bool) -> (r: Result<
    Destination,
    ItemStatus,
>)
    ensures
        has_output_dir ==> r == Ok::<Destination, ItemStatus>(
            Destination::OutputDir { original_is_prior: has_prior_path },
        ),
        !has_output_dir && has_prior_path ==> r == Ok::<Destination, ItemStatus>(
            Destination::OverwritePrior,
        ),
        !has_output_dir && !has_prior_path ==> r == Err::<Destination, ItemStatus>(
            ItemStatus::MissingSourcePath,
        ),
{
    if has_output_dir {
        Ok(Destination::OutputDir { original_is_prior: has_prior_path })
    } else if has_prior_path {
        Ok(Destination::OverwritePrior)
    } else {
        Err(ItemStatus::MissingSourcePath)
    }
}

} // verus!
