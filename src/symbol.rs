//! Undecoration of MSVC-mangled symbol names.
use vstd::prelude::*;
use vstd::string::StringSliceAdditionalSpecFns;

verus! {

/// Caller's flag: keep only the name of the primary declaration.
pub const UNDEC_NAME_ONLY: u32 = 0x1;

/// Caller's flag: keep function return types.
pub const UNDEC_RETN: u32 = 0x2;

/// Demangler flag: the complete declaration.
pub const DEMANGLE_COMPLETE: u32 = 0x0000;

/// Demangler flag: only `[scope::]name`.
pub const DEMANGLE_NAME_ONLY: u32 = 0x1000;

/// Demangler flag: leave out function return types.
pub const DEMANGLE_NO_FUNCTION_RETURNS: u32 = 0x0004;

/// The text that the demangler makes of `sym` under `flags`, or `None`
/// where it cannot parse `sym`.
pub uninterp spec fn demangled(sym: Seq<char>, flags: u32) -> Option<Seq<char>>;

/// The longest symbol handed to the demangler, in bytes. Its parser recurses
/// once per nested type, so the length bounds the depth of its stack.
pub const MAX_SYMBOL_LEN: usize = 128;

pub open spec fn is_digit(b: u8) -> bool {
    0x30 <= b <= 0x39
}

/// Number of decimal digits that end just before index `j`.
pub open spec fn digit_run(s: Seq<u8>, j: int) -> int
    decreases j,
{
    if j <= 0 || !is_digit(s[j - 1]) {
        0
    } else {
        1 + digit_run(s, j - 1)
    }
}

/// A string-literal type code (`_0` or `_1`) ends before index `j`.
pub open spec fn string_code_seen(s: Seq<u8>, j: int) -> bool
    decreases j,
{
    if j < 2 {
        false
    } else {
        string_code_seen(s, j - 1) || (s[j - 2] == 0x5f && (s[j - 1] == 0x30 || s[j - 1] == 0x31))
    }
}

/// The `?$` escape at `j`, where it follows a string-literal type code, is
/// followed by bytes no lower than `A`.
pub open spec fn escape_ok(s: Seq<u8>, j: int) -> bool {
    (s[j] == 0x3f && j + 1 < s.len() && s[j + 1] == 0x24 && string_code_seen(s, j)) ==> ((j + 2
        < s.len() ==> s[j + 2] >= 0x41) && (j + 3 < s.len() ==> s[j + 3] >= 0x41))
}

/// The symbols the demangler is handed: at most `MAX_SYMBOL_LEN` bytes, no
/// run of ten or more decimal digits (a guard number of that many digits
/// overflows its counter), and no `?$` escape in a string literal followed
/// by a byte below `A` (its nibble would underflow).
pub open spec fn demangle_input_ok(s: Seq<u8>) -> bool {
    &&& s.len() <= MAX_SYMBOL_LEN
    &&& forall|j: int| 0 <= j <= s.len() ==> #[trigger] digit_run(s, j) < 10
    &&& forall|j: int| 0 <= j < s.len() ==> #[trigger] escape_ok(s, j)
}

/// Relies on `msvc_demangler::demangle`: parses `sym` and prints it under
/// `flags`; the outcome depends on the two arguments alone. It returns
/// normally on the symbols that `demangle_input_ok` admits.
#[verifier::external_body]
fn demangle_with(sym: &str, flags: u32) -> (r: Option<String>)
    requires
        demangle_input_ok(sym.spec_bytes()),
    ensures
        match r {
            Some(s) => demangled(sym@, flags) == Some(s@),
            None => demangled(sym@, flags) is None,
        },
{
    msvc_demangler::demangle(sym, msvc_demangler::DemangleFlags::from_bits_truncate(flags)).ok()
}

/// The demangler flags for the caller's flags: the name alone where
/// `UNDEC_NAME_ONLY` is set; else the complete declaration, without return
/// types unless `UNDEC_RETN` is set.
pub open spec fn spec_demangle_flags(flags: u32) -> u32 {
    if flags & UNDEC_NAME_ONLY != 0 {
        DEMANGLE_NAME_ONLY
    } else if flags & UNDEC_RETN == 0 {
        DEMANGLE_COMPLETE | DEMANGLE_NO_FUNCTION_RETURNS
    } else {
        DEMANGLE_COMPLETE
    }
}

/// Maps the caller's undecoration flags to the demangler's.
pub fn demangle_flags(flags: u32) -> (r: u32)
    ensures
        r == spec_demangle_flags(flags),
{
    if flags & UNDEC_NAME_ONLY != 0 {
        DEMANGLE_NAME_ONLY
    } else if flags & UNDEC_RETN == 0 {
        DEMANGLE_COMPLETE | DEMANGLE_NO_FUNCTION_RETURNS
    } else {
        DEMANGLE_COMPLETE
    }
}

/// Namespace for symbol helpers.
pub struct Symbol;

impl Symbol {
    /// Whether `sym` may be handed to `undecorate`.
    pub fn can_undecorate(sym: &str) -> (r: bool)
        ensures
            r == demangle_input_ok(sym.spec_bytes()),
    {
        let b = sym.as_bytes();
        if b.len() > MAX_SYMBOL_LEN {
            return false;
        }
        let mut run: usize = 0;
        let mut seen = false;
        let mut j: usize = 0;
        while j < b.len()
            invariant
                b@ == sym.spec_bytes(),
                j <= b@.len() <= MAX_SYMBOL_LEN,
                run == digit_run(b@, j as int),
                seen == string_code_seen(b@, j as int),
                forall|k: int| 0 <= k <= j ==> #[trigger] digit_run(b@, k) < 10,
                forall|k: int| 0 <= k < j ==> #[trigger] escape_ok(b@, k),
            decreases b@.len() - j,
        {
            let c = b[j];
            if c == 0x3f && j + 1 < b.len() && b[j + 1] == 0x24 && seen {
                if j + 2 < b.len() && b[j + 2] < 0x41 {
                    assert(!escape_ok(b@, j as int));
                    return false;
                }
                if j + 3 < b.len() && b[j + 3] < 0x41 {
                    assert(!escape_ok(b@, j as int));
                    return false;
                }
            }
            assert(escape_ok(b@, j as int));
            if 0x30 <= c && c <= 0x39 {
                run = run + 1;
            } else {
                run = 0;
            }
            assert(run == digit_run(b@, j as int + 1));
            if run >= 10 {
                return false;
            }
            if j >= 1 && b[j - 1] == 0x5f && (c == 0x30 || c == 0x31) {
                seen = true;
            }
            assert(seen == string_code_seen(b@, j as int + 1));
            j += 1;
        }
        true
    }

    /// The readable form of the mangled name `sym` under the caller's flags,
    /// or `None` where `sym` cannot be parsed.
    pub fn undecorate(sym: &str, flags: u32) -> (r: Option<String>)
        requires
            demangle_input_ok(sym.spec_bytes()),
        ensures
            match r {
                Some(s) => demangled(sym@, spec_demangle_flags(flags)) == Some(s@),
                None => demangled(sym@, spec_demangle_flags(flags)) is None,
            },
    {
        demangle_with(sym, demangle_flags(flags))
    }

    /// `undecorate` where `can_undecorate` admits `sym`; `None` otherwise.
    pub fn undecorate_checked(sym: &str, flags: u32) -> (r: Option<String>)
        ensures
            !demangle_input_ok(sym.spec_bytes()) ==> r is None,
            demangle_input_ok(sym.spec_bytes()) ==> match r {
                Some(s) => demangled(sym@, spec_demangle_flags(flags)) == Some(s@),
                None => demangled(sym@, spec_demangle_flags(flags)) is None,
            },
    {
        if Symbol::can_undecorate(sym) {
            Symbol::undecorate(sym, flags)
        } else {
            None
        }
    }
}

} // verus!
