use vstd::prelude::*;

verus! {

/// The classified faults the peripheral can report during a word read.
#[derive(Clone, Copy, Debug, PartialEq, Eq, Structural)]
pub enum ErrorKind {
    /// The generator clock was not correctly detected: its frequency fell
    /// below one sixteenth of the core clock.
    ClockError,
    /// The hardware entropy self-check failed: too many consecutive equal
    /// bits, or too many consecutive alternating bit pairs.
    SeedError,
}

/// The numeric discriminant reserved for each fault kind in the shared
/// error-code namespace.
pub open spec fn kind_code(kind: ErrorKind) -> u32 {
    match kind {
        ErrorKind::ClockError => 2,
        ErrorKind::SeedError => 4,
    }
}

/// The code a fault kind is reported under in the shared error-code
/// namespace of generic entropy sources: the base of the range reserved for
/// custom errors, plus the kind's own discriminant.
pub open spec fn generic_code_of(kind: ErrorKind) -> u32 {
    (0xC000_0000 + kind_code(kind)) as u32
}

/// rand_core's opaque error type, declared so that signatures of this
/// library can carry it; nothing of its inside is visible here.
#[verifier::external_type_specification]
#[verifier::external_body]
pub struct ExGenericError(rand_core::Error);

/// The code a generic entropy-source error reports back; rand_core stores
/// it at construction, so it is a function of the error value alone.
pub uninterp spec fn error_code_of(e: rand_core::Error) -> u32;

/// Relies on rand_core::Error::CUSTOM_START, the first code of the range
/// reserved for custom error sources; its value is (1 << 31) + (1 << 30).
#[verifier::external_body]
fn custom_start() -> (r: u32)
    ensures
        r == 0xC000_0000u32,
{
    rand_core::Error::CUSTOM_START
}

/// Relies on rand_core's From<NonZeroU32> impl for Error together with
/// Error::code: an error built from a nonzero code reports exactly that
/// code back.
#[verifier::external_body]
fn generic_error_from_code(code: u32) -> (r: rand_core::Error)
    requires
        1 <= code,
    ensures
        error_code_of(r) == code,
{
    rand_core::Error::from(core::num::NonZeroU32::new(code).unwrap())
}

impl ErrorKind {
    /// The fault kind's reserved discriminant; the two kinds never share one.
    pub fn code(&self) -> (r: u32)
        ensures
            r == kind_code(*self),
    {
        match self {
            ErrorKind::ClockError => 2,
            ErrorKind::SeedError => 4,
        }
    }

    /// The code this fault carries in the shared namespace: it sits above
    /// the custom-range base, so it collides with no generic code, and the
    /// two kinds map to distinct values.
    pub fn generic_code(&self) -> (r: u32)
        ensures
            r == generic_code_of(*self),
            r > 0xC000_0000u32,
    {
        let base = custom_start();
        base + self.code()
    }

    /// Wrap this fault as a generic entropy-source error: the returned
    /// value reports back exactly this kind's reserved code.
    pub fn to_generic_error(&self) -> (r: rand_core::Error)
        ensures
            error_code_of(r) == generic_code_of(*self),
    {
        generic_error_from_code(self.generic_code())
    }
}

} // verus!
