use vstd::prelude::*;

verus! {

/// Status codes shared by every operation of the engine.
#[derive(Clone, Copy, Debug, PartialEq, Eq, Structural)]
pub enum Error {
    Success,
    NoMem,
    Arch,
    Handle,
    Mode,
    Version,
    ReadUnmapped,
    WriteUnmapped,
    FetchUnmapped,
    Hook,
    InsnInvalid,
    MapConflict,
    WriteProt,
    ReadProt,
    FetchProt,
    Arg,
    ReadUnaligned,
    WriteUnaligned,
    FetchUnaligned,
    HookExist,
    Resource,
    Exception,
}

/// The description that belongs to each status code.
pub open spec fn error_text(e: Error) -> Seq<char> {
    match e {
        Error::Success => "OK (UC_ERR_OK)"@,
        Error::NoMem => "No memory available or memory not present (UC_ERR_NOMEM)"@,
        Error::Arch => "Invalid/unsupported architecture (UC_ERR_ARCH)"@,
        Error::Handle => "Invalid handle (UC_ERR_HANDLE)"@,
        Error::Mode => "Invalid mode (UC_ERR_MODE)"@,
        Error::Version => "Different API version between core & binding (UC_ERR_VERSION)"@,
        Error::ReadUnmapped => "Invalid memory read (UC_ERR_READ_UNMAPPED)"@,
        Error::WriteUnmapped => "Invalid memory write (UC_ERR_WRITE_UNMAPPED)"@,
        Error::FetchUnmapped => "Invalid memory fetch (UC_ERR_FETCH_UNMAPPED)"@,
        Error::Hook => "Invalid hook type (UC_ERR_HOOK)"@,
        Error::InsnInvalid => "Invalid instruction (UC_ERR_INSN_INVALID)"@,
        Error::MapConflict => "Invalid memory mapping (UC_ERR_MAP)"@,
        Error::WriteProt => "Write to write-protected memory (UC_ERR_WRITE_PROT)"@,
        Error::ReadProt => "Read from non-readable memory (UC_ERR_READ_PROT)"@,
        Error::FetchProt => "Fetch from non-executable memory (UC_ERR_FETCH_PROT)"@,
        Error::Arg => "Invalid argument (UC_ERR_ARG)"@,
        Error::ReadUnaligned => "Read from unaligned memory (UC_ERR_READ_UNALIGNED)"@,
        Error::WriteUnaligned => "Write to unaligned memory (UC_ERR_WRITE_UNALIGNED)"@,
        Error::FetchUnaligned => "Fetch from unaligned memory (UC_ERR_FETCH_UNALIGNED)"@,
        Error::HookExist => "Hook for this event already existed (UC_ERR_HOOK_EXIST)"@,
        Error::Resource => "Insufficient resource (UC_ERR_RESOURCE)"@,
        Error::Exception => "Unhandled CPU exception (UC_ERR_EXCEPTION)"@,
    }
}

impl Error {
    /// A static, human-readable description of the status code.
    pub fn msg(self) -> (r: &'static str)
        ensures
            r@ == error_text(self),
    {
        match self {
            Error::Success => "OK (UC_ERR_OK)",
            Error::NoMem => "No memory available or memory not present (UC_ERR_NOMEM)",
            Error::Arch => "Invalid/unsupported architecture (UC_ERR_ARCH)",
            Error::Handle => "Invalid handle (UC_ERR_HANDLE)",
            Error::Mode => "Invalid mode (UC_ERR_MODE)",
            Error::Version => "Different API version between core & binding (UC_ERR_VERSION)",
            Error::ReadUnmapped => "Invalid memory read (UC_ERR_READ_UNMAPPED)",
            Error::WriteUnmapped => "Invalid memory write (UC_ERR_WRITE_UNMAPPED)",
            Error::FetchUnmapped => "Invalid memory fetch (UC_ERR_FETCH_UNMAPPED)",
            Error::Hook => "Invalid hook type (UC_ERR_HOOK)",
            Error::InsnInvalid => "Invalid instruction (UC_ERR_INSN_INVALID)",
            Error::MapConflict => "Invalid memory mapping (UC_ERR_MAP)",
            Error::WriteProt => "Write to write-protected memory (UC_ERR_WRITE_PROT)",
            Error::ReadProt => "Read from non-readable memory (UC_ERR_READ_PROT)",
            Error::FetchProt => "Fetch from non-executable memory (UC_ERR_FETCH_PROT)",
            Error::Arg => "Invalid argument (UC_ERR_ARG)",
            Error::ReadUnaligned => "Read from unaligned memory (UC_ERR_READ_UNALIGNED)",
            Error::WriteUnaligned => "Write to unaligned memory (UC_ERR_WRITE_UNALIGNED)",
            Error::FetchUnaligned => "Fetch from unaligned memory (UC_ERR_FETCH_UNALIGNED)",
            Error::HookExist => "Hook for this event already existed (UC_ERR_HOOK_EXIST)",
            Error::Resource => "Insufficient resource (UC_ERR_RESOURCE)",
            Error::Exception => "Unhandled CPU exception (UC_ERR_EXCEPTION)",
        }
    }
}

/// Outcome of one step of the persistent fuzzing loop.
#[derive(Clone, Copy, Debug, PartialEq, Eq, Structural)]
pub enum AflRet {
    Error,
    Child,
    NoAfl,
    CalledTwice,
    Finished,
}

} // verus!
