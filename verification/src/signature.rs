//! The finished image's identity: the ad-hoc code signature's page hashes and the `LC_UUID`
//! derived from a hash of the whole image.
use vstd::prelude::*;
use sha2::Digest;
use crate::bytes::{le_u32, read_u32_le, splice, write_bytes_at};
use crate::load_commands::LC_UUID;

verus! {

/// The page size the code signature hashes.
pub const CS_BLOCK_SIZE: usize = 4096;
/// The size of a SHA-256 digest.
pub const CS_HASH_SIZE: usize = 32;
/// The size of the UUID in `uuid_command`.
pub const UUID_SIZE: usize = 16;

/// The SHA-256 digest of `data`.
pub uninterp spec fn sha256_digest(data: Seq<u8>) -> Seq<u8>;

/// The BLAKE3 hash of `data`.
pub uninterp spec fn blake3_digest(data: Seq<u8>) -> Seq<u8>;

/// `sha2::Sha256::digest`: the SHA-256 digest of `data`, which is 32 bytes long.
#[verifier::external_body]
fn sha256(data: &[u8]) -> (r: Vec<u8>)
    ensures
        r@ == sha256_digest(data@),
        r@.len() == CS_HASH_SIZE,
{
    sha2::Sha256::digest(data).to_vec()
}

/// `blake3::hash`: the 32-byte BLAKE3 hash of `data`.
#[verifier::external_body]
fn blake3_hash(data: &[u8]) -> (r: Vec<u8>)
    ensures
        r@ == blake3_digest(data@),
        r@.len() == 32,
{
    blake3::hash(data).as_bytes().to_vec()
}

/// Why the image's identity could not be written.
#[derive(Debug, Clone, Copy, PartialEq, Eq)]
pub enum SignatureError {
    /// The code signature or load commands lie outside the image.
    InvalidAllocation,
    /// The code signature's hash slots do not match the pages it covers.
    HashSlotMismatch,
    /// A load command header runs past the load commands.
    InvalidLoadCommand,
    /// A load command's size runs past the load commands or is zero.
    InvalidLoadCommandSize,
    /// The `LC_UUID` command is shorter than `uuid_command`.
    InvalidUuidCommand,
    /// No `LC_UUID` command.
    MissingUuid,
}

// ---------------------------------------------------------------------------------------------
// Code signature hashes
// ---------------------------------------------------------------------------------------------

/// The number of 4 KiB pages that cover `len` bytes.
pub open spec fn page_count(len: int) -> int {
    (len + CS_BLOCK_SIZE - 1) / (CS_BLOCK_SIZE as int)
}

/// Page `i` of `data`: 4 KiB, or what is left at the end.
pub open spec fn code_page(data: Seq<u8>, i: int) -> Seq<u8> {
    let start = i * CS_BLOCK_SIZE;
    let end = if start + CS_BLOCK_SIZE <= data.len() {
        start + CS_BLOCK_SIZE
    } else {
        data.len() as int
    };
    data.subrange(start, end)
}

/// The SHA-256 digests of the first `n` pages of `data`, concatenated.
pub open spec fn code_hashes(data: Seq<u8>, n: int) -> Seq<u8>
    decreases n,
{
    if n <= 0 {
        Seq::empty()
    } else {
        code_hashes(data, n - 1) + sha256_digest(code_page(data, n - 1))
    }
}

/// The page hashes of `data`: one SHA-256 digest per 4 KiB page, the last page possibly short.
pub fn code_signature_hashes(data: &[u8]) -> (r: Vec<u8>)
    ensures
        r@ == code_hashes(data@, page_count(data@.len() as int)),
        r@.len() == page_count(data@.len() as int) * CS_HASH_SIZE,
{
    let len = data.len();
    let mut hashes: Vec<u8> = Vec::new();
    let mut start: usize = 0;
    let ghost mut i: int = 0;
    while start < len
        invariant
            len == data@.len(),
            start == i * CS_BLOCK_SIZE,
            0 <= i,
            start <= len || i == page_count(len as int),
            i <= page_count(len as int),
            hashes@ == code_hashes(data@, i),
            hashes@.len() == i * CS_HASH_SIZE,
        decreases len + CS_BLOCK_SIZE - start,
    {
        let end = if len - start >= CS_BLOCK_SIZE {
            start + CS_BLOCK_SIZE
        } else {
            len
        };
        let digest = sha256(vstd::slice::slice_subrange(data, start, end));
        assert(data@.subrange(start as int, end as int) == code_page(data@, i));
        let mut k: usize = 0;
        let ghost before = hashes@;
        while k < digest.len()
            invariant
                0 <= k <= digest@.len(),
                hashes@ == before + digest@.take(k as int),
            decreases digest@.len() - k,
        {
            hashes.push(digest[k]);
            assert(hashes@ =~= before + digest@.take(k + 1));
            k = k + 1;
        }
        assert(digest@.take(digest@.len() as int) =~= digest@);
        proof {
            assert(i < page_count(len as int));
            i = i + 1;
        }
        if end == len {
            assert(i == page_count(len as int));
            return hashes;
        }
        start = end;
    }
    assert(i == page_count(len as int));
    hashes
}

/// Fills the hash slots of the code signature: `output` is the image, whose code signature
/// occupies `signature_size` bytes from `signature_offset` and covers everything before it; its
/// hash slots run from `hashes_offset` within it to its end.
pub fn write_code_signature_hashes(
    output: &mut [u8],
    signature_offset: usize,
    signature_size: usize,
    hashes_offset: usize,
) -> (r: Result<(), SignatureError>)
    ensures
        ({
            let image = old(output)@;
            let hashes = code_hashes(image.take(signature_offset as int), page_count(signature_offset as int));
            &&& signature_offset + signature_size > image.len() || hashes_offset > signature_size
                ==> r == Err::<(), SignatureError>(SignatureError::InvalidAllocation)
            &&& signature_offset + signature_size <= image.len() && hashes_offset <= signature_size
                && hashes.len() != signature_size - hashes_offset ==> r == Err::<(), SignatureError>(
                SignatureError::HashSlotMismatch,
            )
            &&& r is Err ==> final(output)@ == image
            &&& r is Ok <==> (signature_offset + signature_size <= image.len() && hashes_offset
                <= signature_size && hashes.len() == signature_size - hashes_offset)
            &&& r is Ok ==> final(output)@ == splice(image, signature_offset + hashes_offset, hashes)
        }),
{
    let len = output.len();
    if signature_offset > len || len - signature_offset < signature_size || hashes_offset
        > signature_size {
        return Err(SignatureError::InvalidAllocation);
    }
    let ghost image = output@;
    let hashes = code_signature_hashes(vstd::slice::slice_subrange(output, 0, signature_offset));
    assert(output@.subrange(0, signature_offset as int) =~= image.take(signature_offset as int));
    if hashes.len() != signature_size - hashes_offset {
        return Err(SignatureError::HashSlotMismatch);
    }
    write_bytes_at(output, signature_offset + hashes_offset, hashes.as_slice());
    Ok(())
}

// ---------------------------------------------------------------------------------------------
// UUID
// ---------------------------------------------------------------------------------------------

/// The UUID taken from an image hash: its first 16 bytes, marked as an RFC 9562 version-3 UUID.
pub open spec fn uuid_from_hash(hash: Seq<u8>) -> Seq<u8> {
    hash.take(16).update(6, (hash[6] & 0x0f) | 0x30).update(8, (hash[8] & 0x3f) | 0x80)
}

/// The offset of the `LC_UUID` command among the load commands from `pos` to `end`, walking the
/// commands by their sizes.
pub open spec fn find_uuid_command(data: Seq<u8>, pos: int, end: int) -> Result<int, SignatureError>
    decreases end - pos,
{
    if pos >= end {
        Err(SignatureError::MissingUuid)
    } else if pos + 8 > end {
        Err(SignatureError::InvalidLoadCommand)
    } else {
        let cmd = le_u32(data, pos);
        let size = le_u32(data, pos + 4);
        if size > end - pos {
            Err(SignatureError::InvalidLoadCommandSize)
        } else if cmd == LC_UUID {
            if size < 8 + UUID_SIZE {
                Err(SignatureError::InvalidUuidCommand)
            } else {
                Ok(pos)
            }
        } else if size == 0 {
            Err(SignatureError::InvalidLoadCommandSize)
        } else {
            find_uuid_command(data, pos + size, end)
        }
    }
}

/// Stamps the image's UUID: the BLAKE3 hash of the whole image, as a version-3 UUID, goes into
/// the `LC_UUID` command among the load commands at `commands_offset`, `commands_size` bytes
/// long.
pub fn write_uuid(output: &mut [u8], commands_offset: usize, commands_size: usize) -> (r: Result<
    (),
    SignatureError,
>)
    ensures
        ({
            let image = old(output)@;
            &&& commands_offset + commands_size > image.len() ==> r == Err::<(), SignatureError>(
                SignatureError::InvalidAllocation,
            )
            &&& commands_offset + commands_size <= image.len() ==> match find_uuid_command(
                image,
                commands_offset as int,
                commands_offset + commands_size,
            ) {
                Err(e) => r == Err::<(), SignatureError>(e),
                Ok(at) => r is Ok && final(output)@ == splice(
                    image,
                    at + 8,
                    uuid_from_hash(blake3_digest(image)),
                ),
            }
            &&& r is Err ==> final(output)@ == image
        }),
{
    let len = output.len();
    if commands_offset > len || len - commands_offset < commands_size {
        return Err(SignatureError::InvalidAllocation);
    }
    let ghost image = output@;
    let hash = blake3_hash(output);
    let end = commands_offset + commands_size;
    let mut pos = commands_offset;
    while pos < end
        invariant
            len == output@.len(),
            output@ == image,
            image == old(output)@,
            end == commands_offset + commands_size,
            commands_offset <= pos,
            end <= len,
            hash@ == blake3_digest(image),
            hash@.len() == 32,
            find_uuid_command(image, pos as int, end as int) == find_uuid_command(
                image,
                commands_offset as int,
                end as int,
            ),
        decreases end - pos,
    {
        if end - pos < 8 {
            return Err(SignatureError::InvalidLoadCommand);
        }
        let cmd = read_u32_le(output, pos);
        let size = read_u32_le(output, pos + 4) as usize;
        if size > end - pos {
            return Err(SignatureError::InvalidLoadCommandSize);
        }
        if cmd == LC_UUID {
            if size < 8 + UUID_SIZE {
                return Err(SignatureError::InvalidUuidCommand);
            }
            let mut uuid: Vec<u8> = Vec::new();
            let mut k: usize = 0;
            while k < UUID_SIZE
                invariant
                    0 <= k <= UUID_SIZE,
                    hash@.len() == 32,
                    uuid@ == hash@.take(k as int),
                decreases UUID_SIZE - k,
            {
                uuid.push(hash[k]);
                assert(uuid@ =~= hash@.take(k + 1));
                k = k + 1;
            }
            let version = (uuid[6] & 0x0f) | 0x30;
            uuid.set(6, version);
            let variant = (uuid[8] & 0x3f) | 0x80;
            uuid.set(8, variant);
            assert(uuid@ =~= uuid_from_hash(hash@));
            write_bytes_at(output, pos + 8, uuid.as_slice());
            return Ok(());
        }
        if size == 0 {
            return Err(SignatureError::InvalidLoadCommandSize);
        }
        pos = pos + size;
    }
    Err(SignatureError::MissingUuid)
}

/// The stamped UUID is an RFC 9562 version-3 UUID of the variant `10`: its version nibble is
/// 3 and the top bits of byte 8 are `10`, whatever the image hash.
pub proof fn lemma_uuid_version(hash: Seq<u8>)
    requires
        hash.len() >= 16,
    ensures
        uuid_from_hash(hash).len() == 16,
        uuid_from_hash(hash)[6] >> 4u8 == 3,
        uuid_from_hash(hash)[8] >> 6u8 == 2,
        forall|i: int| 0 <= i < 16 && i != 6 && i != 8 ==> #[trigger] uuid_from_hash(hash)[i] == hash[i],
{
    let a = hash[6];
    let b = hash[8];
    assert(((a & 0x0f) | 0x30) >> 4u8 == 3) by (bit_vector);
    assert(((b & 0x3f) | 0x80) >> 6u8 == 2) by (bit_vector);
}

} // verus!
