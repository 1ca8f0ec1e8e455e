//! File mode flags, as the C tests spell them.

use vstd::prelude::*;

verus! {

/// One permission bit (or group of bits) of a file mode.
#[allow(non_camel_case_types)]
#[derive(Debug, Clone, Copy, PartialEq, Eq, Hash, Structural)]
pub enum ModeFlag {
    S_IRWXU,
    S_IRUSR,
    S_IWUSR,
    S_IXUSR,
    S_IRWXG,
    S_IRGRP,
    S_IWGRP,
    S_IXGRP,
    S_IRWXO,
    S_IROTH,
    S_IWOTH,
    S_IXOTH,
    S_ISUID,
    S_ISGID,
    S_ISVTX,
}

/// A file mode: the flags that are set.
pub type Mode = Vec<ModeFlag>;

/// The C name of a flag.
pub open spec fn flag_name(f: ModeFlag) -> Seq<char> {
    match f {
        ModeFlag::S_IRWXU => "S_IRWXU"@,
        ModeFlag::S_IRUSR => "S_IRUSR"@,
        ModeFlag::S_IWUSR => "S_IWUSR"@,
        ModeFlag::S_IXUSR => "S_IXUSR"@,
        ModeFlag::S_IRWXG => "S_IRWXG"@,
        ModeFlag::S_IRGRP => "S_IRGRP"@,
        ModeFlag::S_IWGRP => "S_IWGRP"@,
        ModeFlag::S_IXGRP => "S_IXGRP"@,
        ModeFlag::S_IRWXO => "S_IRWXO"@,
        ModeFlag::S_IROTH => "S_IROTH"@,
        ModeFlag::S_IWOTH => "S_IWOTH"@,
        ModeFlag::S_IXOTH => "S_IXOTH"@,
        ModeFlag::S_ISUID => "S_ISUID"@,
        ModeFlag::S_ISGID => "S_ISGID"@,
        ModeFlag::S_ISVTX => "S_ISVTX"@,
    }
}

impl ModeFlag {
    /// The C name of the flag (what `to_string` gives).
    pub fn name(&self) -> (r: &'static str)
        ensures
            r@ == flag_name(*self),
    {
        match self {
            ModeFlag::S_IRWXU => "S_IRWXU",
            ModeFlag::S_IRUSR => "S_IRUSR",
            ModeFlag::S_IWUSR => "S_IWUSR",
            ModeFlag::S_IXUSR => "S_IXUSR",
            ModeFlag::S_IRWXG => "S_IRWXG",
            ModeFlag::S_IRGRP => "S_IRGRP",
            ModeFlag::S_IWGRP => "S_IWGRP",
            ModeFlag::S_IXGRP => "S_IXGRP",
            ModeFlag::S_IRWXO => "S_IRWXO",
            ModeFlag::S_IROTH => "S_IROTH",
            ModeFlag::S_IWOTH => "S_IWOTH",
            ModeFlag::S_IXOTH => "S_IXOTH",
            ModeFlag::S_ISUID => "S_ISUID",
            ModeFlag::S_ISGID => "S_ISGID",
            ModeFlag::S_ISVTX => "S_ISVTX",
        }
    }
}

/// A copy of a mode.
pub fn copy_mode(m: &Mode) -> (r: Mode)
    ensures
        r@ == m@,
{
    let mut r: Mode = Vec::new();
    let mut i: usize = 0;
    while i < m.len()
        invariant
            i <= m@.len(),
            r@ == m@.take(i as int),
        decreases m@.len() - i,
    {
        r.push(m[i]);
        i = i + 1;
        assert(r@ =~= m@.take(i as int));
    }
    assert(m@.take(m@.len() as int) =~= m@);
    r
}

} // verus!
