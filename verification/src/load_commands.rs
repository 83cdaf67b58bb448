//! Dylib versions and the dylib, rpath, dylinker and UUID load commands.
use vstd::prelude::*;
use crate::bytes::{le_u32, lemma_le_u32_at, u32_le_bytes, write_u32_at, zeros};
use crate::text::{find_byte, find_from, lemma_find_from};

verus! {

/// `LC_LOAD_DYLIB`.
pub const LC_LOAD_DYLIB: u32 = 0xc;
/// `LC_ID_DYLIB`.
pub const LC_ID_DYLIB: u32 = 0xd;
/// `LC_LOAD_DYLINKER`.
pub const LC_LOAD_DYLINKER: u32 = 0xe;
/// `LC_UUID`.
pub const LC_UUID: u32 = 0x1b;
/// `LC_LOAD_WEAK_DYLIB`.
pub const LC_LOAD_WEAK_DYLIB: u32 = 0x8000_0018;
/// `LC_RPATH`.
pub const LC_RPATH: u32 = 0x8000_001c;
/// The size of `dylib_command`.
pub const DYLIB_COMMAND_SIZE: usize = 24;
/// The size of `rpath_command`.
pub const RPATH_COMMAND_SIZE: usize = 12;
/// The size of `dylinker_command`.
pub const DYLINKER_COMMAND_SIZE: usize = 12;
/// The size of `uuid_command`.
pub const UUID_COMMAND_SIZE: usize = 24;
/// Load commands are padded to eight bytes.
pub const MACHO_COMMAND_ALIGNMENT: usize = 8;

/// A dylib version: `major.minor.update` packed as `xxxx.yy.zz`.
pub open spec fn spec_version(major: u16, minor: u8, update: u8) -> u32 {
    (major * 0x1_0000 + minor * 0x100 + update) as u32
}

/// Packs a dylib version.
pub fn version_new(major: u16, minor: u8, update: u8) -> (r: u32)
    ensures
        r == spec_version(major, minor, update),
        r == major * 0x1_0000 + minor * 0x100 + update,
        r / 0x1_0000 == major && (r / 0x100) % 0x100 == minor && r % 0x100 == update,
{
    proof {
        lemma_version_packing(major, minor, update);
    }
    (major as u32) * 0x1_0000 + (minor as u32) * 0x100 + update as u32
}

/// A packed version holds the major version in bits 16 to 32, the minor in bits 8 to 16 and the
/// update in bits 0 to 8: it is `major * 0x10000 + minor * 0x100 + update`, and each component
/// can be read back from its bits.
pub proof fn lemma_version_packing(major: u16, minor: u8, update: u8)
    ensures
        spec_version(major, minor, update) == major * 0x1_0000 + minor * 0x100 + update,
        spec_version(major, minor, update) / 0x1_0000 == major,
        (spec_version(major, minor, update) / 0x100) % 0x100 == minor,
        spec_version(major, minor, update) % 0x100 == update,
{
    let v = major * 0x1_0000 + minor * 0x100 + update;
    assert(0 <= v <= u32::MAX);
    assert(v / 0x1_0000 == major) by (nonlinear_arith)
        requires
            v == major * 0x1_0000 + minor * 0x100 + update,
            0 <= minor < 0x100,
            0 <= update < 0x100,
    ;
    assert(v / 0x100 == major * 0x100 + minor) by (nonlinear_arith)
        requires
            v == major * 0x1_0000 + minor * 0x100 + update,
            0 <= update < 0x100,
    ;
    assert((major * 0x100 + minor) % 0x100 == minor) by (nonlinear_arith)
        requires
            0 <= minor < 0x100,
            0 <= major,
    ;
    assert(v % 0x100 == update) by (nonlinear_arith)
        requires
            v == major * 0x1_0000 + minor * 0x100 + update,
            0 <= update < 0x100,
            0 <= minor,
            0 <= major,
    ;
}

/// The two version fields of a dylib.
#[derive(Debug, Clone, Copy, PartialEq, Eq)]
pub struct DylibVersions {
    pub current: u32,
    pub compatibility: u32,
}

/// Why a version string was refused.
#[derive(Debug, Clone, Copy, PartialEq, Eq)]
pub enum VersionError {
    /// The major component is not a number below 65536.
    InvalidMajor,
    /// The minor component is not a number below 256.
    InvalidMinor,
    /// The update component is not a number below 256.
    InvalidUpdate,
    /// More than three components.
    TooManyComponents,
}

/// The digits of a number: `s` without a leading `+`.
pub open spec fn unsigned_digits(s: Seq<u8>) -> Seq<u8> {
    if s.len() > 0 && s[0] == 43u8 {
        s.subrange(1, s.len() as int)
    } else {
        s
    }
}

/// Whether every byte is a decimal digit.
pub open spec fn all_digits(d: Seq<u8>) -> bool {
    forall|i: int| 0 <= i < d.len() ==> 48 <= #[trigger] d[i] <= 57
}

/// Whether `s` spells an unsigned decimal number: an optional `+` and at least one digit.
pub open spec fn is_decimal(s: Seq<u8>) -> bool {
    unsigned_digits(s).len() > 0 && all_digits(unsigned_digits(s))
}

/// The value of a run of decimal digits.
pub open spec fn digits_value(s: Seq<u8>) -> int
    decreases s.len(),
{
    if s.len() == 0 {
        0
    } else {
        digits_value(s.drop_last()) * 10 + (s.last() - 48)
    }
}

/// The value of a decimal number, without its sign.
pub open spec fn decimal_value(s: Seq<u8>) -> int {
    digits_value(unsigned_digits(s))
}

/// The value of a decimal number, if `s` spells one of at most `max`.
pub open spec fn spec_parse_decimal(s: Seq<u8>, max: u64) -> Option<u64> {
    if is_decimal(s) && decimal_value(s) <= max {
        Some(decimal_value(s) as u64)
    } else {
        None
    }
}

/// Digit values never fall below zero.
proof fn lemma_digits_value_nonneg(s: Seq<u8>)
    requires
        forall|i: int| 0 <= i < s.len() ==> 48 <= #[trigger] s[i] <= 57,
    ensures
        digits_value(s) >= 0,
        s.len() > 0 ==> digits_value(s) >= digits_value(s.drop_last()),
    decreases s.len(),
{
    if s.len() > 0 {
        lemma_digits_value_nonneg(s.drop_last());
    }
}

/// Parses an unsigned decimal number (an optional `+`, then digits) of at most `max`, as
/// Rust's integer parsing does for an unsigned type whose largest value is `max`.
pub fn parse_decimal(s: &[u8], max: u64) -> (r: Option<u64>)
    ensures
        r == spec_parse_decimal(s@, max),
{
    let start: usize = if s.len() > 0 && s[0] == 43u8 {
        1
    } else {
        0
    };
    let ghost digits = unsigned_digits(s@);
    assert(digits =~= s@.subrange(start as int, s@.len() as int));
    if start >= s.len() {
        return None;
    }
    let mut value: u64 = 0;
    let mut i: usize = start;
    while i < s.len()
        invariant
            start <= i <= s@.len(),
            start < s@.len(),
            digits == s@.subrange(start as int, s@.len() as int),
            digits == unsigned_digits(s@),
            forall|j: int| start <= j < i ==> 48 <= #[trigger] s@[j] <= 57,
            value == digits_value(s@.subrange(start as int, i as int)),
            value <= max,
        decreases s@.len() - i,
    {
        let b = s[i];
        assert(s@.subrange(start as int, i + 1).drop_last() =~= s@.subrange(start as int, i as int));
        if b < 48 || b > 57 {
            assert(digits[i - start] == b);
            return None;
        }
        let d = (b - 48) as u64;
        if d > max || value > (max - d) / 10 {
            proof {
                if all_digits(digits) {
                    lemma_prefix_value_bound(digits, (i + 1 - start) as int);
                    assert(digits.subrange(0, (i + 1 - start) as int) =~= s@.subrange(
                        start as int,
                        i + 1,
                    ));
                }
            }
            return None;
        }
        value = value * 10 + d;
        i = i + 1;
    }
    assert(s@.subrange(start as int, s@.len() as int) =~= digits);
    assert(all_digits(digits)) by {
        assert forall|j: int| 0 <= j < digits.len() implies 48 <= #[trigger] digits[j] <= 57 by {
            assert(digits[j] == s@[start + j]);
        }
    }
    Some(value)
}

/// A number's value is at least the value of any of its digit prefixes.
proof fn lemma_prefix_value_bound(s: Seq<u8>, k: int)
    requires
        0 <= k <= s.len(),
        forall|i: int| 0 <= i < s.len() ==> 48 <= #[trigger] s[i] <= 57,
    ensures
        digits_value(s.subrange(0, k)) <= digits_value(s),
    decreases s.len() - k,
{
    if k < s.len() {
        lemma_prefix_value_bound(s, k + 1);
        let p = s.subrange(0, k + 1);
        assert(p.drop_last() =~= s.subrange(0, k));
        assert forall|i: int| 0 <= i < p.len() implies 48 <= #[trigger] p[i] <= 57 by {
            assert(p[i] == s[i]);
        }
        lemma_digits_value_nonneg(p);
    } else {
        assert(s.subrange(0, k) =~= s);
    }
}

/// The dylib version spelled `major[.minor[.update]]`; missing components are zero.
pub open spec fn spec_parse_dylib_version(s: Seq<u8>) -> Result<u32, VersionError> {
    let d1 = find_from(s, 0, 46u8);
    let c0 = match d1 {
        Some(p) => s.subrange(0, p),
        None => s,
    };
    match spec_parse_decimal(c0, 0xffff) {
        None => Err(VersionError::InvalidMajor),
        Some(major) => match d1 {
            None => Ok(spec_version(major as u16, 0, 0)),
            Some(p1) => {
                let d2 = find_from(s, p1 + 1, 46u8);
                let c1 = match d2 {
                    Some(p) => s.subrange(p1 + 1, p),
                    None => s.subrange(p1 + 1, s.len() as int),
                };
                match spec_parse_decimal(c1, 0xff) {
                    None => Err(VersionError::InvalidMinor),
                    Some(minor) => match d2 {
                        None => Ok(spec_version(major as u16, minor as u8, 0)),
                        Some(p2) => {
                            let d3 = find_from(s, p2 + 1, 46u8);
                            let c2 = match d3 {
                                Some(p) => s.subrange(p2 + 1, p),
                                None => s.subrange(p2 + 1, s.len() as int),
                            };
                            match spec_parse_decimal(c2, 0xff) {
                                None => Err(VersionError::InvalidUpdate),
                                Some(update) => if d3 is Some {
                                    Err(VersionError::TooManyComponents)
                                } else {
                                    Ok(spec_version(major as u16, minor as u8, update as u8))
                                },
                            }
                        },
                    },
                }
            },
        },
    }
}

/// One dot-separated component starting at `from`, and the position of the dot that ends it.
fn component(s: &[u8], from: usize) -> (r: (&[u8], Option<usize>))
    requires
        from <= s@.len(),
    ensures
        r.1 == match find_from(s@, from as int, 46u8) {
            Some(p) => Some(p as usize),
            None => None::<usize>,
        },
        r.0@ == match find_from(s@, from as int, 46u8) {
            Some(p) => s@.subrange(from as int, p),
            None => s@.subrange(from as int, s@.len() as int),
        },
{
    proof {
        lemma_find_from(s@, from as int, 46u8);
    }
    match find_byte(s, from, 46u8) {
        Some(p) => (vstd::slice::slice_subrange(s, from, p), Some(p)),
        None => (vstd::slice::slice_subrange(s, from, s.len()), None),
    }
}

/// Parses a dylib version `major[.minor[.update]]` with a 16-bit major and 8-bit minor and
/// update; missing components are zero.
pub fn parse_dylib_version(value: &[u8]) -> (r: Result<u32, VersionError>)
    ensures
        r == spec_parse_dylib_version(value@),
{
    proof {
        lemma_find_from(value@, 0, 46u8);
    }
    let n = value.len();
    let (c0, d1) = component(value, 0);
    assert(c0@ =~= match find_from(value@, 0, 46u8) {
        Some(p) => value@.subrange(0, p),
        None => value@,
    });
    let major = match parse_decimal(c0, 0xffff) {
        Some(v) => v as u16,
        None => {
            return Err(VersionError::InvalidMajor);
        },
    };
    let p1 = match d1 {
        Some(p) => p,
        None => {
            return Ok(version_new(major, 0, 0));
        },
    };
    assert(p1 < n);
    proof {
        lemma_find_from(value@, p1 + 1, 46u8);
    }
    let (c1, d2) = component(value, p1 + 1);
    let minor = match parse_decimal(c1, 0xff) {
        Some(v) => v as u8,
        None => {
            return Err(VersionError::InvalidMinor);
        },
    };
    let p2 = match d2 {
        Some(p) => p,
        None => {
            return Ok(version_new(major, minor, 0));
        },
    };
    assert(p2 < n);
    proof {
        lemma_find_from(value@, p2 + 1, 46u8);
    }
    let (c2, d3) = component(value, p2 + 1);
    let update = match parse_decimal(c2, 0xff) {
        Some(v) => v as u8,
        None => {
            return Err(VersionError::InvalidUpdate);
        },
    };
    if d3.is_some() {
        return Err(VersionError::TooManyComponents);
    }
    Ok(version_new(major, minor, update))
}

/// Version 1.0.0, which `ld64` uses for a missing TBD version and for a new dylib.
pub open spec fn default_version() -> u32 {
    spec_version(1, 0, 0)
}

/// The versions of a TBD document: each field parsed, or 1.0.0 when it is empty.
pub open spec fn spec_tbd_versions(current: Seq<u8>, compatibility: Seq<u8>) -> Result<
    DylibVersions,
    VersionError,
> {
    let c = if current.len() == 0 {
        Ok(default_version())
    } else {
        spec_parse_dylib_version(current)
    };
    let k = if compatibility.len() == 0 {
        Ok(default_version())
    } else {
        spec_parse_dylib_version(compatibility)
    };
    match c {
        Err(e) => Err(e),
        Ok(cv) => match k {
            Err(e) => Err(e),
            Ok(kv) => Ok(DylibVersions { current: cv, compatibility: kv }),
        },
    }
}

impl DylibVersions {
    /// The versions of a TBD document; `ld64` uses 1.0.0 for an omitted field.
    pub fn tbd(current: &[u8], compatibility: &[u8]) -> (r: Result<DylibVersions, VersionError>)
        ensures
            r == spec_tbd_versions(current@, compatibility@),
    {
        let current = if current.len() == 0 {
            version_new(1, 0, 0)
        } else {
            parse_dylib_version(current)?
        };
        let compatibility = if compatibility.len() == 0 {
            version_new(1, 0, 0)
        } else {
            parse_dylib_version(compatibility)?
        };
        Ok(DylibVersions { current, compatibility })
    }

    /// The versions `ld64` writes for a newly linked dylib.
    pub fn output_default() -> (r: DylibVersions)
        ensures
            r.current == default_version() && r.compatibility == default_version(),
    {
        DylibVersions { current: version_new(1, 0, 0), compatibility: version_new(1, 0, 0) }
    }
}

/// `x` rounded up to a multiple of eight.
pub open spec fn round_up8(x: int) -> int {
    if x % 8 == 0 {
        x
    } else {
        x + 8 - x % 8
    }
}

/// The size of a dylib load command naming `path`: the fixed part, the path and its NUL,
/// padded to eight bytes.
pub fn load_dylib_command_size(path: &[u8]) -> (r: usize)
    requires
        DYLIB_COMMAND_SIZE + path@.len() + 8 <= usize::MAX,
    ensures
        r == round_up8(DYLIB_COMMAND_SIZE + path@.len() + 1),
{
    let x = DYLIB_COMMAND_SIZE + path.len() + 1;
    if x % 8 == 0 {
        x
    } else {
        x + 8 - x % 8
    }
}

/// The size of an rpath load command naming `path`: the fixed part, the path and its NUL,
/// padded to eight bytes.
pub fn rpath_command_size(path: &[u8]) -> (r: usize)
    requires
        RPATH_COMMAND_SIZE + path@.len() + 8 <= usize::MAX,
    ensures
        r == round_up8(RPATH_COMMAND_SIZE + path@.len() + 1),
{
    let x = RPATH_COMMAND_SIZE + path.len() + 1;
    if x % 8 == 0 {
        x
    } else {
        x + 8 - x % 8
    }
}

/// Copies `path` to the start of `buffer` and zeroes the rest.
fn write_path(buffer: &mut [u8], path: &[u8])
    requires
        path@.len() <= old(buffer)@.len(),
    ensures
        final(buffer)@ == path@ + zeros(old(buffer)@.len() - path@.len()),
{
    let mut i: usize = 0;
    while i < buffer.len()
        invariant
            path@.len() <= buffer@.len(),
            buffer@.len() == old(buffer)@.len(),
            0 <= i <= buffer@.len(),
            forall|j: int| 0 <= j < i ==> #[trigger] buffer@[j] == if j < path@.len() {
                path@[j]
            } else {
                0u8
            },
        decreases buffer@.len() - i,
    {
        if i < path.len() {
            buffer[i] = path[i];
        } else {
            buffer[i] = 0;
        }
        i = i + 1;
    }
    assert(buffer@ =~= path@ + zeros(old(buffer)@.len() - path@.len()));
}

/// The fixed part of a dylib load command.
pub open spec fn dylib_command_bytes(
    command_type: u32,
    path_len: int,
    timestamp: u32,
    versions: DylibVersions,
) -> Seq<u8> {
    u32_le_bytes(command_type) + u32_le_bytes(round_up8(DYLIB_COMMAND_SIZE + path_len + 1) as u32)
        + u32_le_bytes(DYLIB_COMMAND_SIZE as u32) + u32_le_bytes(timestamp) + u32_le_bytes(
        versions.current,
    ) + u32_le_bytes(versions.compatibility)
}

/// Writes a dylib load command (`LC_ID_DYLIB`, `LC_LOAD_DYLIB` or `LC_LOAD_WEAK_DYLIB`): its type
/// and size, the offset of its name, the timestamp and both versions, then the NUL-padded path.
pub fn write_dylib_command(
    command: &mut [u8],
    path_buffer: &mut [u8],
    path: &[u8],
    command_type: u32,
    timestamp: u32,
    versions: DylibVersions,
)
    requires
        old(command)@.len() == DYLIB_COMMAND_SIZE,
        path@.len() <= old(path_buffer)@.len(),
        DYLIB_COMMAND_SIZE + path@.len() + 8 <= usize::MAX,
    ensures
        final(command)@ == dylib_command_bytes(command_type, path@.len() as int, timestamp, versions),
        final(path_buffer)@ == path@ + zeros(old(path_buffer)@.len() - path@.len()),
{
    let size = load_dylib_command_size(path);
    write_u32_at(command, 0, command_type);
    write_u32_at(command, 4, size as u32);
    write_u32_at(command, 8, DYLIB_COMMAND_SIZE as u32);
    write_u32_at(command, 12, timestamp);
    write_u32_at(command, 16, versions.current);
    write_u32_at(command, 20, versions.compatibility);
    assert(command@ =~= dylib_command_bytes(command_type, path@.len() as int, timestamp, versions));
    write_path(path_buffer, path);
}

/// The fixed part of an rpath load command.
pub open spec fn rpath_command_bytes(path_len: int) -> Seq<u8> {
    u32_le_bytes(LC_RPATH) + u32_le_bytes(round_up8(RPATH_COMMAND_SIZE + path_len + 1) as u32)
        + u32_le_bytes(RPATH_COMMAND_SIZE as u32)
}

/// Writes an `LC_RPATH` command: its type and size, the offset of its path, then the NUL-padded
/// path.
pub fn write_rpath_command(command: &mut [u8], path_buffer: &mut [u8], path: &[u8])
    requires
        old(command)@.len() == RPATH_COMMAND_SIZE,
        path@.len() <= old(path_buffer)@.len(),
        RPATH_COMMAND_SIZE + path@.len() + 8 <= usize::MAX,
    ensures
        final(command)@ == rpath_command_bytes(path@.len() as int),
        final(path_buffer)@ == path@ + zeros(old(path_buffer)@.len() - path@.len()),
{
    let size = rpath_command_size(path);
    write_u32_at(command, 0, LC_RPATH);
    write_u32_at(command, 4, size as u32);
    write_u32_at(command, 8, RPATH_COMMAND_SIZE as u32);
    assert(command@ =~= rpath_command_bytes(path@.len() as int));
    write_path(path_buffer, path);
}

/// The path of the dynamic linker, `/usr/lib/dyld`.
pub open spec fn dylinker_path() -> Seq<u8> {
    seq![47u8, 117, 115, 114, 47, 108, 105, 98, 47, 100, 121, 108, 100]
}

/// The fixed part of the `LC_LOAD_DYLINKER` command.
pub open spec fn dylinker_command_bytes() -> Seq<u8> {
    u32_le_bytes(LC_LOAD_DYLINKER) + u32_le_bytes(round_up8(DYLINKER_COMMAND_SIZE + 13) as u32)
        + u32_le_bytes(DYLINKER_COMMAND_SIZE as u32)
}

/// Writes the `LC_LOAD_DYLINKER` command naming `/usr/lib/dyld`.
pub fn write_dylinker_command(command: &mut [u8], path_buffer: &mut [u8])
    requires
        old(command)@.len() == DYLINKER_COMMAND_SIZE,
        13 <= old(path_buffer)@.len(),
    ensures
        final(command)@ == dylinker_command_bytes(),
        final(path_buffer)@ == dylinker_path() + zeros(old(path_buffer)@.len() - 13),
{
    let path: [u8; 13] = [47u8, 117, 115, 114, 47, 108, 105, 98, 47, 100, 121, 108, 100];
    assert(path@ =~= dylinker_path());
    write_u32_at(command, 0, LC_LOAD_DYLINKER);
    write_u32_at(command, 4, 32);
    write_u32_at(command, 8, DYLINKER_COMMAND_SIZE as u32);
    assert(command@ =~= dylinker_command_bytes());
    write_path(path_buffer, path.as_slice());
}

/// Writes the `LC_UUID` command with a zero UUID; the UUID is filled in once the image is
/// complete.
pub fn write_uuid_command(command: &mut [u8])
    requires
        old(command)@.len() == UUID_COMMAND_SIZE,
    ensures
        final(command)@ == u32_le_bytes(LC_UUID) + u32_le_bytes(UUID_COMMAND_SIZE as u32) + zeros(16),
{
    write_u32_at(command, 0, LC_UUID);
    write_u32_at(command, 4, UUID_COMMAND_SIZE as u32);
    let mut i: usize = 8;
    while i < 24
        invariant
            command@.len() == 24,
            8 <= i <= 24,
            command@.subrange(0, 8) == u32_le_bytes(LC_UUID) + u32_le_bytes(UUID_COMMAND_SIZE as u32),
            forall|j: int| 8 <= j < i ==> #[trigger] command@[j] == 0u8,
        decreases 24 - i,
    {
        command[i] = 0;
        i = i + 1;
    }
    assert(command@ =~= u32_le_bytes(LC_UUID) + u32_le_bytes(UUID_COMMAND_SIZE as u32) + zeros(16));
}

/// The fields of `dylib_command` stand where the Mach-O layout puts them: `cmd` at 0,
/// `cmdsize` at 4, the name's offset at 8, `timestamp` at 12, `current_version` at 16 and
/// `compatibility_version` at 20.
pub proof fn lemma_dylib_command_layout(command_type: u32, path_len: int, timestamp: u32, versions: DylibVersions)
    ensures
        ({
            let b = dylib_command_bytes(command_type, path_len, timestamp, versions);
            &&& b.len() == 24
            &&& le_u32(b, 0) == command_type
            &&& le_u32(b, 4) == round_up8(24 + path_len + 1) as u32
            &&& le_u32(b, 8) == 24
            &&& le_u32(b, 12) == timestamp
            &&& le_u32(b, 16) == versions.current
            &&& le_u32(b, 20) == versions.compatibility
        }),
{
    let b = dylib_command_bytes(command_type, path_len, timestamp, versions);
    assert(b.subrange(0, 4) =~= u32_le_bytes(command_type));
    assert(b.subrange(4, 8) =~= u32_le_bytes(round_up8(DYLIB_COMMAND_SIZE + path_len + 1) as u32));
    assert(b.subrange(8, 12) =~= u32_le_bytes(DYLIB_COMMAND_SIZE as u32));
    assert(b.subrange(12, 16) =~= u32_le_bytes(timestamp));
    assert(b.subrange(16, 20) =~= u32_le_bytes(versions.current));
    assert(b.subrange(20, 24) =~= u32_le_bytes(versions.compatibility));
    lemma_le_u32_at(b, 0, command_type);
    lemma_le_u32_at(b, 4, round_up8(DYLIB_COMMAND_SIZE + path_len + 1) as u32);
    lemma_le_u32_at(b, 8, DYLIB_COMMAND_SIZE as u32);
    lemma_le_u32_at(b, 12, timestamp);
    lemma_le_u32_at(b, 16, versions.current);
    lemma_le_u32_at(b, 20, versions.compatibility);
}

/// The fields of `rpath_command` stand where the Mach-O layout puts them: `cmd` at 0, `cmdsize`
/// (the command and its NUL-terminated path, rounded up to eight) at 4, and the path's offset at
/// 8.
pub proof fn lemma_rpath_command_layout(path_len: int)
    ensures
        ({
            let b = rpath_command_bytes(path_len);
            &&& b.len() == 12
            &&& le_u32(b, 0) == 0x8000_001c
            &&& le_u32(b, 4) == round_up8(12 + path_len + 1) as u32
            &&& le_u32(b, 8) == 12
        }),
{
    let b = rpath_command_bytes(path_len);
    assert(b.subrange(0, 4) =~= u32_le_bytes(LC_RPATH));
    assert(b.subrange(4, 8) =~= u32_le_bytes(round_up8(RPATH_COMMAND_SIZE + path_len + 1) as u32));
    assert(b.subrange(8, 12) =~= u32_le_bytes(RPATH_COMMAND_SIZE as u32));
    lemma_le_u32_at(b, 0, LC_RPATH);
    lemma_le_u32_at(b, 4, round_up8(RPATH_COMMAND_SIZE + path_len + 1) as u32);
    lemma_le_u32_at(b, 8, RPATH_COMMAND_SIZE as u32);
}

/// The fields of `dylinker_command` stand where the Mach-O layout puts them: `cmd` at 0,
/// `cmdsize` at 4 and the path's offset at 8.
pub proof fn lemma_dylinker_command_layout()
    ensures
        ({
            let b = dylinker_command_bytes();
            &&& b.len() == 12
            &&& le_u32(b, 0) == 0xe
            &&& le_u32(b, 4) == 32
            &&& le_u32(b, 8) == 12
        }),
{
    let b = dylinker_command_bytes();
    assert(b.subrange(0, 4) =~= u32_le_bytes(LC_LOAD_DYLINKER));
    assert(b.subrange(4, 8) =~= u32_le_bytes(round_up8(DYLINKER_COMMAND_SIZE + 13) as u32));
    assert(b.subrange(8, 12) =~= u32_le_bytes(DYLINKER_COMMAND_SIZE as u32));
    lemma_le_u32_at(b, 0, LC_LOAD_DYLINKER);
    lemma_le_u32_at(b, 4, round_up8(DYLINKER_COMMAND_SIZE + 13) as u32);
    lemma_le_u32_at(b, 8, DYLINKER_COMMAND_SIZE as u32);
}

/// A TBD document's omitted version is 1.0.0 (`0x0001_0000`); a given one is its parsed value.
pub proof fn lemma_tbd_versions_defaults(current: Seq<u8>, compatibility: Seq<u8>)
    ensures
        spec_tbd_versions(current, compatibility) matches Ok(v) ==> ({
            &&& current.len() == 0 ==> v.current == 0x1_0000
            &&& compatibility.len() == 0 ==> v.compatibility == 0x1_0000
            &&& current.len() > 0 ==> spec_parse_dylib_version(current) == Ok::<u32, VersionError>(v.current)
            &&& compatibility.len() > 0 ==> spec_parse_dylib_version(compatibility) == Ok::<u32, VersionError>(
                v.compatibility,
            )
        }),
{
    lemma_version_packing(1, 0, 0);
}

/// Rounding up to eight gives the least multiple of eight that is at least `x`.
pub proof fn lemma_round_up8(x: int)
    requires
        0 <= x,
    ensures
        round_up8(x) % 8 == 0,
        x <= round_up8(x) < x + 8,
{
}

} // verus!
