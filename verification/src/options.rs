//! Checks on the linker's options that do not depend on reading any input.
use vstd::prelude::*;

verus! {

/// The kind of Mach-O file being linked.
#[derive(Debug, Clone, Copy, PartialEq, Eq)]
pub enum MachOOutputKind {
    Executable,
    Dylib,
}

/// Why the options cannot be used together.
#[derive(Debug, Clone, Copy, PartialEq, Eq)]
pub enum OptionsError {
    /// `-install_name` was given without `-dylib`.
    InstallNameWithoutDylib,
}

/// `-install_name` names the library being built, so it may only be given with `-dylib`.
pub fn check_install_name(install_name: Option<&[u8]>, output_kind: MachOOutputKind) -> (r: Result<(), OptionsError>)
    ensures
        r is Err <==> (install_name is Some && output_kind != MachOOutputKind::Dylib),
        r is Err ==> r == Err::<(), OptionsError>(OptionsError::InstallNameWithoutDylib),
{
    match (install_name, output_kind) {
        (Some(_), MachOOutputKind::Executable) => Err(OptionsError::InstallNameWithoutDylib),
        _ => Ok(()),
    }
}

/// The install name of the library being built: the one `-install_name` gave, else the output
/// path, as `ld64` does.
pub fn dylib_install_name<'a>(install_name: Option<&'a [u8]>, output_path: &'a [u8]) -> (r: &'a [u8])
    ensures
        r@ == match install_name {
            Some(n) => n@,
            None => output_path@,
        },
{
    match install_name {
        Some(n) => n,
        None => output_path,
    }
}

} // verus!
