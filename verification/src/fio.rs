//! File-type sniffing: magic-byte dispatch and gzip decompression.
use vstd::prelude::*;

use crate::errors::DumpError;

verus! {

/// The formats a raw byte buffer can be recognized as.
#[derive(Debug, Clone, Copy, PartialEq, Eq, Structural)]
pub enum FileType {
    KerbalMachineCode,
    KerbalObject,
    Unknown,
}

/// What inflating a gzip stream yields: a function of the bytes alone,
/// `None` where the stream is not a complete well-formed gzip stream.
pub uninterp spec fn gunzip_of(s: Seq<u8>) -> Option<Seq<u8>>;

/// Relies on flate2's `GzDecoder` with `read_to_end`: inflating a byte
/// buffer is deterministic, yielding the decompressed bytes, and fails on a
/// corrupt or truncated stream.
#[verifier::external_body]
pub(crate) fn gunzip(contents: &Vec<u8>) -> (r: Result<Vec<u8>, DumpError>)
    ensures
        r is Ok <==> gunzip_of(contents@) is Some,
        r matches Ok(d) ==> Some(d@) == gunzip_of(contents@),
        r matches Err(e) ==> e == DumpError::UnexpectedEndOfInput,
{
    let mut decoder = flate2::read::GzDecoder::new(contents.as_slice());
    let mut out: Vec<u8> = Vec::new();
    match std::io::Read::read_to_end(&mut decoder, &mut out) {
        Ok(_) => Ok(out),
        Err(_) => Err(DumpError::UnexpectedEndOfInput),
    }
}

/// What inflating only the first four bytes of a gzip stream yields: a
/// function of the bytes alone, `None` where fewer than four bytes can be
/// decompressed.
pub uninterp spec fn gunzip_prefix4_of(s: Seq<u8>) -> Option<Seq<u8>>;

/// Relies on flate2's `GzDecoder` with `Read::read_exact`: decompressing the
/// first four bytes of a stream is deterministic, and fails where fewer than
/// four bytes can be decompressed.
#[verifier::external_body]
pub(crate) fn gunzip_prefix4(contents: &Vec<u8>) -> (r: Result<Vec<u8>, DumpError>)
    ensures
        r is Ok <==> gunzip_prefix4_of(contents@) is Some,
        r matches Ok(d) ==> Some(d@) == gunzip_prefix4_of(contents@) && d@.len() == 4,
        r matches Err(e) ==> e == DumpError::UnexpectedEndOfInput,
{
    let mut decoder = flate2::read::GzDecoder::new(contents.as_slice());
    let mut prefix = [0u8, 0, 0, 0];
    match std::io::Read::read_exact(&mut decoder, &mut prefix) {
        Ok(_) => Ok(prefix.to_vec()),
        Err(_) => Err(DumpError::UnexpectedEndOfInput),
    }
}

/// The first four bytes of a gzip stream.
pub open spec fn spec_is_gzip(s: Seq<u8>) -> bool {
    s.len() >= 4 && s[0] == 0x1f && s[1] == 0x8b && s[2] == 0x08 && s[3] == 0x00
}

/// The magic prefix of a machine-code file (after decompression).
pub open spec fn spec_is_ksm(s: Seq<u8>) -> bool {
    s.len() >= 4 && s[0] == 0x6b && s[1] == 0x03 && s[2] == 0x58 && s[3] == 0x45
}

/// The magic prefix of an object file.
pub open spec fn spec_is_ko(s: Seq<u8>) -> bool {
    s.len() >= 4 && s[0] == 0x6b && s[1] == 0x01 && s[2] == 0x6f && s[3] == 0x66
}

/// Checks if the buffer starts with the gzip magic bytes.
pub fn is_gzip(contents: &[u8]) -> (r: bool)
    requires
        contents@.len() >= 4,
    ensures
        r == spec_is_gzip(contents@),
{
    contents[0] == 0x1f && contents[1] == 0x8b && contents[2] == 0x08 && contents[3] == 0x00
}

/// Checks if the buffer starts with the machine-code file magic.
pub fn is_ksm(contents: &[u8]) -> (r: bool)
    requires
        contents@.len() >= 4,
    ensures
        r == spec_is_ksm(contents@),
{
    contents[0] == 0x6b && contents[1] == 0x03 && contents[2] == 0x58 && contents[3] == 0x45
}

/// Checks if the buffer starts with the object file magic.
pub fn is_ko(contents: &[u8]) -> (r: bool)
    requires
        contents@.len() >= 4,
    ensures
        r == spec_is_ko(contents@),
{
    contents[0] == 0x6b && contents[1] == 0x01 && contents[2] == 0x6f && contents[3] == 0x66
}

/// The file type that `determine_file_type` reports for a buffer: only the
/// first four decompressed bytes of a gzip stream are inspected.
pub open spec fn spec_file_type(s: Seq<u8>) -> Result<FileType, DumpError> {
    if s.len() < 4 {
        Err(DumpError::UnexpectedEndOfInput)
    } else if spec_is_gzip(s) {
        match gunzip_prefix4_of(s) {
            Some(d) => if spec_is_ksm(d) {
                Ok(FileType::KerbalMachineCode)
            } else {
                Ok(FileType::Unknown)
            },
            None => Err(DumpError::UnexpectedEndOfInput),
        }
    } else if spec_is_ko(s) {
        Ok(FileType::KerbalObject)
    } else {
        Ok(FileType::Unknown)
    }
}

/// Determines the type of a file from its raw bytes: a gzip stream whose
/// first four decompressed bytes carry the machine-code magic, a raw buffer
/// with the object-file magic, or an unrecognized file.
pub fn determine_file_type(contents: &Vec<u8>) -> (r: Result<FileType, DumpError>)
    ensures
        r == spec_file_type(contents@),
{
    if contents.len() < 4 {
        return Err(DumpError::UnexpectedEndOfInput);
    }
    if is_gzip(contents.as_slice()) {
        let decompressed = gunzip_prefix4(contents)?;
        if is_ksm(decompressed.as_slice()) {
            Ok(FileType::KerbalMachineCode)
        } else {
            Ok(FileType::Unknown)
        }
    } else if is_ko(contents.as_slice()) {
        Ok(FileType::KerbalObject)
    } else {
        Ok(FileType::Unknown)
    }
}

} // verus!
