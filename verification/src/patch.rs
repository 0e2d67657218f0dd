use vstd::prelude::*;

verus! {

/// The version of the Path of Exile game
#[derive(Debug, PartialEq)]
pub enum Patch {
    /// Any version of PoE 1
    One,
    /// Any version of PoE 2
    Two,
    /// A specific game patch eg. "3.4.0.12"
    /// PoE1 - "3.*"
    /// PoE2 - "4.*"
    Specific(String),
}

/// Whether a patch string names a specific PoE 1 patch ("3.*") or PoE 2 patch ("4.*").
pub open spec fn starts_with_major(s: Seq<char>, major: char) -> bool {
    s.len() >= 2 && s[0] == major && s[1] == '.'
}

/// The major game version a patch belongs to, where it has one.
pub open spec fn spec_major(p: Patch) -> Option<u32> {
    match p {
        Patch::One => Some(1u32),
        Patch::Two => Some(2u32),
        Patch::Specific(s) => if starts_with_major(s@, '3') {
            Some(1u32)
        } else if starts_with_major(s@, '4') {
            Some(2u32)
        } else {
            None
        },
    }
}

/// The text form of a patch.
pub open spec fn spec_patch_text(p: Patch) -> Seq<char> {
    match p {
        Patch::One => seq!['1'],
        Patch::Two => seq!['2'],
        Patch::Specific(s) => s@,
    }
}

/// Whether `s` starts with `major` followed by a dot.
fn str_starts_with_major(s: &str, major: char) -> (r: bool)
    ensures
        r == starts_with_major(s@, major),
{
    if s.unicode_len() < 2 {
        return false;
    }
    s.get_char(0) == major && s.get_char(1) == '.'
}

impl Patch {
    /// PoE 1 or 2
    pub fn major(&self) -> (r: u32)
        requires
            spec_major(*self).is_some(),
        ensures
            spec_major(*self) == Some(r),
    {
        match self {
            Patch::One => 1,
            Patch::Two => 2,
            Patch::Specific(s) => {
                if str_starts_with_major(s.as_str(), '3') {
                    1
                } else {
                    2
                }
            },
        }
    }

    /// The patch as given on the command line: "1", "2" or the specific version
    pub fn as_str(&self) -> (r: &str)
        ensures
            r@ == spec_patch_text(*self),
    {
        match self {
            Patch::One => {
                let s = "1";
                proof {
                    reveal_strlit("1");
                }
                s
            },
            Patch::Two => {
                let s = "2";
                proof {
                    reveal_strlit("2");
                }
                s
            },
            Patch::Specific(v) => v.as_str(),
        }
    }

    /// Reads a patch from its text form: "1" and "2" name the latest patch of each game,
    /// anything else a specific patch.
    pub fn parse(s: &str) -> (r: Patch)
        ensures
            s@ == seq!['1'] ==> r == Patch::One,
            s@ == seq!['2'] ==> r == Patch::Two,
            s@ != seq!['1'] && s@ != seq!['2'] ==> (r matches Patch::Specific(v) && v@ == s@),
            spec_patch_text(r) == s@,
    {
        if s.unicode_len() == 1 && s.get_char(0) == '1' {
            assert(s@ =~= seq!['1']);
            Patch::One
        } else if s.unicode_len() == 1 && s.get_char(0) == '2' {
            assert(s@ =~= seq!['2']);
            Patch::Two
        } else {
            Patch::Specific(s.to_owned())
        }
    }
}

impl core::str::FromStr for Patch {
    type Err = String;

    fn from_str(s: &str) -> (r: Result<Self, Self::Err>)
        ensures
            r matches Ok(p) && spec_patch_text(p) == s@ && (s@ == seq!['1'] ==> p == Patch::One) && (
            s@ == seq!['2'] ==> p == Patch::Two) && (s@ != seq!['1'] && s@ != seq!['2'] ==> (
            p matches Patch::Specific(v) && v@ == s@)),
    {
        Ok(Patch::parse(s))
    }
}

} // verus!
