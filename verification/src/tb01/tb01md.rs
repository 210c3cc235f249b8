//! TB01MD: options of the reduction of (B, A) to controller Hessenberg form.

use vstd::prelude::*;

verus! {

/// Whether to accumulate the transformation matrix U.
#[derive(Clone, Copy, PartialEq, Eq, Structural)]
pub enum JobU {
    /// Do not form U.
    No,
    /// U is initialized to identity and the transformation matrix is returned.
    Init,
    /// The given U is updated by the transformations.
    Update,
}

/// Upper or lower controller Hessenberg form.
#[derive(Clone, Copy, PartialEq, Eq, Structural)]
pub enum Uplo {
    /// Upper controller Hessenberg form.
    Upper,
    /// Lower controller Hessenberg form.
    Lower,
}

/// The ASCII upper-case image of a character: `a`..`z` map to `A`..`Z`,
/// every other character is left as it is.
pub open spec fn ascii_upper(c: char) -> char {
    if 'a' <= c && c <= 'z' {
        ((c as u32) - 32) as char
    } else {
        c
    }
}

/// Upper-casing of ASCII letters, as the option decoders use it.
pub trait ToAsciiUpper: Sized {
    fn to_ascii_uppercase(self) -> char;
}

impl ToAsciiUpper for char {
    fn to_ascii_uppercase(self) -> (r: char)
        ensures
            r == ascii_upper(self),
    {
        if self >= 'a' && self <= 'z' {
            ((self as u8) - 97u8 + 65u8) as char
        } else {
            self
        }
    }
}

/// The option that a SLICOT character code names for JOBU.
pub open spec fn jobu_of(c: char) -> Option<JobU> {
    let u = ascii_upper(c);
    if u == 'N' {
        Some(JobU::No)
    } else if u == 'I' {
        Some(JobU::Init)
    } else if u == 'U' {
        Some(JobU::Update)
    } else {
        None
    }
}

/// The option that a SLICOT character code names for UPLO.
pub open spec fn uplo_of(c: char) -> Option<Uplo> {
    let u = ascii_upper(c);
    if u == 'U' {
        Some(Uplo::Upper)
    } else if u == 'L' {
        Some(Uplo::Lower)
    } else {
        None
    }
}

impl JobU {
    /// Decodes a SLICOT JOBU character ('N', 'I', 'U', either case).
    pub fn from_char(c: char) -> (r: Option<Self>)
        ensures
            r == jobu_of(c),
    {
        match c.to_ascii_uppercase() {
            'N' => Some(JobU::No),
            'I' => Some(JobU::Init),
            'U' => Some(JobU::Update),
            _ => None,
        }
    }
}

impl Uplo {
    /// Decodes a SLICOT UPLO character ('U', 'L', either case).
    pub fn from_char(c: char) -> (r: Option<Self>)
        ensures
            r == uplo_of(c),
    {
        match c.to_ascii_uppercase() {
            'U' => Some(Uplo::Upper),
            'L' => Some(Uplo::Lower),
            _ => None,
        }
    }
}


/// An optional matrix that is given and is not `n` x `n`.
pub open spec fn given_but_not_square(shape: Option<(usize, usize)>, n: nat) -> bool {
    match shape {
        Some(s) => s.0 != n || s.1 != n,
        None => false,
    }
}

impl JobU {
    /// Whether U is formed or updated (the option needs a U).
    pub fn uses_u(self) -> (r: bool)
        ensures
            r == (self == JobU::Init || self == JobU::Update),
    {
        match self {
            JobU::No => false,
            JobU::Init => true,
            JobU::Update => true,
        }
    }
}

/// The checks TB01MD makes before the reduction, in its order: -6 when A is
/// not square or B has not N rows; -10 when U is needed (JOBU = I or U) but
/// missing, or given and not N x N; with N = 0 or M = 0 it returns 0; -2 for
/// the lower form, which is not available. `None` lets the reduction go on.
pub fn tb01md_screen(
    jobu: JobU,
    uplo: Uplo,
    a_rows: usize,
    a_cols: usize,
    b_rows: usize,
    b_cols: usize,
    u_shape: Option<(usize, usize)>,
) -> (r: Option<i32>)
    ensures
        r == if a_cols != a_rows || b_rows != a_rows {
            Some(-6i32)
        } else if (jobu == JobU::Init || jobu == JobU::Update) && u_shape is None {
            Some(-10i32)
        } else if given_but_not_square(u_shape, a_rows as nat) {
            Some(-10i32)
        } else if a_rows == 0 || b_cols == 0 {
            Some(0i32)
        } else if uplo != Uplo::Upper {
            Some(-2i32)
        } else {
            None
        },
{
    let n = a_rows;
    if a_cols != n || b_rows != n {
        return Some(-6);
    }
    if jobu.uses_u() && u_shape.is_none() {
        return Some(-10);
    }
    if let Some((ur, uc)) = u_shape {
        if ur != n || uc != n {
            return Some(-10);
        }
    }
    if n == 0 || b_cols == 0 {
        return Some(0);
    }
    if uplo != Uplo::Upper {
        return Some(-2);
    }
    None
}

} // verus!
