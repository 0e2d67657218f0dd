//! Choosing the parser for a file by its extension.
use vstd::prelude::*;
use crate::text::str_eq;

verus! {

/// Parser for different file formats
#[derive(Debug, Clone, Copy, PartialEq, Eq, Structural)]
pub enum Parser {
    Amd,
    Ao,
    Arm,
    Cht,
    Clt,
    Dct,
    Ddt,
    Dlp,
    Ecf,
    Epk,
    Et,
    Fmt,
    Gcf,
    Gft,
    Gt,
    Mat,
    Mtd,
    Pet,
    /// Passive skill graphs depend on the game version
    Psg { version: u32 },
    Rs,
    Smd,
    Tmo,
    Toy,
    Trl,
    Tsi,
    Tst,
}

/// The extension of a path, as `std::path::Path::extension` gives it.
pub uninterp spec fn extension_of(path: Seq<char>) -> Option<Seq<char>>;

/// Calls `std::path::Path::extension` and takes it as text (a path made from a `&str` stays valid
/// UTF-8). The result depends on the path alone, named by [`extension_of`]; the rules for what
/// counts as an extension are not stated here.
#[verifier::external_body]
fn path_extension(path: &str) -> (r: Option<String>)
    ensures
        match r {
            Some(e) => extension_of(path@) == Some(e@),
            None => extension_of(path@) is None,
        },
{
    std::path::Path::new(path).extension().and_then(|e| e.to_str()).map(|e| e.to_string())
}

/// The parser for files with extension `ext`, if there is one.
pub open spec fn parser_for_extension(ext: Seq<char>, poe_version: u32) -> Option<Parser> {
    if ext == "amd"@ {
        Some(Parser::Amd)
    } else if ext == "ao"@ {
        Some(Parser::Ao)
    } else if ext == "arm"@ {
        Some(Parser::Arm)
    } else if ext == "cht"@ {
        Some(Parser::Cht)
    } else if ext == "clt"@ {
        Some(Parser::Clt)
    } else if ext == "dct"@ {
        Some(Parser::Dct)
    } else if ext == "ddt"@ {
        Some(Parser::Ddt)
    } else if ext == "dlp"@ {
        Some(Parser::Dlp)
    } else if ext == "ecf"@ {
        Some(Parser::Ecf)
    } else if ext == "epk"@ {
        Some(Parser::Epk)
    } else if ext == "et"@ {
        Some(Parser::Et)
    } else if ext == "fmt"@ {
        Some(Parser::Fmt)
    } else if ext == "gcf"@ {
        Some(Parser::Gcf)
    } else if ext == "gft"@ {
        Some(Parser::Gft)
    } else if ext == "gt"@ {
        Some(Parser::Gt)
    } else if ext == "mat"@ {
        Some(Parser::Mat)
    } else if ext == "mtd"@ {
        Some(Parser::Mtd)
    } else if ext == "pet"@ {
        Some(Parser::Pet)
    } else if ext == "psg"@ {
        Some(Parser::Psg { version: poe_version })
    } else if ext == "rs"@ {
        Some(Parser::Rs)
    } else if ext == "smd"@ {
        Some(Parser::Smd)
    } else if ext == "tmo"@ {
        Some(Parser::Tmo)
    } else if ext == "toy"@ {
        Some(Parser::Toy)
    } else if ext == "trl"@ {
        Some(Parser::Trl)
    } else if ext == "tsi"@ {
        Some(Parser::Tsi)
    } else if ext == "tst"@ {
        Some(Parser::Tst)
    } else {
        None
    }
}

/// The parser for files with extension `ext`, if there is one.
fn parser_for(ext: &str, poe_version: u32) -> (r: Option<Parser>)
    ensures
        r == parser_for_extension(ext@, poe_version),
{
    if str_eq(ext, "amd") {
        Some(Parser::Amd)
    } else if str_eq(ext, "ao") {
        Some(Parser::Ao)
    } else if str_eq(ext, "arm") {
        Some(Parser::Arm)
    } else if str_eq(ext, "cht") {
        Some(Parser::Cht)
    } else if str_eq(ext, "clt") {
        Some(Parser::Clt)
    } else if str_eq(ext, "dct") {
        Some(Parser::Dct)
    } else if str_eq(ext, "ddt") {
        Some(Parser::Ddt)
    } else if str_eq(ext, "dlp") {
        Some(Parser::Dlp)
    } else if str_eq(ext, "ecf") {
        Some(Parser::Ecf)
    } else if str_eq(ext, "epk") {
        Some(Parser::Epk)
    } else if str_eq(ext, "et") {
        Some(Parser::Et)
    } else if str_eq(ext, "fmt") {
        Some(Parser::Fmt)
    } else if str_eq(ext, "gcf") {
        Some(Parser::Gcf)
    } else if str_eq(ext, "gft") {
        Some(Parser::Gft)
    } else if str_eq(ext, "gt") {
        Some(Parser::Gt)
    } else if str_eq(ext, "mat") {
        Some(Parser::Mat)
    } else if str_eq(ext, "mtd") {
        Some(Parser::Mtd)
    } else if str_eq(ext, "pet") {
        Some(Parser::Pet)
    } else if str_eq(ext, "psg") {
        Some(Parser::Psg { version: poe_version })
    } else if str_eq(ext, "rs") {
        Some(Parser::Rs)
    } else if str_eq(ext, "smd") {
        Some(Parser::Smd)
    } else if str_eq(ext, "tmo") {
        Some(Parser::Tmo)
    } else if str_eq(ext, "toy") {
        Some(Parser::Toy)
    } else if str_eq(ext, "trl") {
        Some(Parser::Trl)
    } else if str_eq(ext, "tsi") {
        Some(Parser::Tsi)
    } else if str_eq(ext, "tst") {
        Some(Parser::Tst)
    } else {
        None
    }
}

/// The file extension that each parser reads, named after it.
pub open spec fn parser_extension(p: Parser) -> Seq<char> {
    match p {
        Parser::Amd => "amd"@,
        Parser::Ao => "ao"@,
        Parser::Arm => "arm"@,
        Parser::Cht => "cht"@,
        Parser::Clt => "clt"@,
        Parser::Dct => "dct"@,
        Parser::Ddt => "ddt"@,
        Parser::Dlp => "dlp"@,
        Parser::Ecf => "ecf"@,
        Parser::Epk => "epk"@,
        Parser::Et => "et"@,
        Parser::Fmt => "fmt"@,
        Parser::Gcf => "gcf"@,
        Parser::Gft => "gft"@,
        Parser::Gt => "gt"@,
        Parser::Mat => "mat"@,
        Parser::Mtd => "mtd"@,
        Parser::Pet => "pet"@,
        Parser::Psg { .. } => "psg"@,
        Parser::Rs => "rs"@,
        Parser::Smd => "smd"@,
        Parser::Tmo => "tmo"@,
        Parser::Toy => "toy"@,
        Parser::Trl => "trl"@,
        Parser::Tsi => "tsi"@,
        Parser::Tst => "tst"@,
    }
}

/// A file is read by the parser named after its extension: the parser chosen for an extension
/// is one whose extension it is (a passive skill graph parser for the game version asked for),
/// and an extension that no parser is named after gets none.
pub proof fn lemma_parser_named_after_extension(ext: Seq<char>, poe_version: u32)
    ensures
        match parser_for_extension(ext, poe_version) {
            Some(p) => parser_extension(p) == ext && (p matches Parser::Psg { version }
                ==> version == poe_version),
            None => forall|p: Parser| #[trigger] parser_extension(p) != ext,
        },
{
}

impl Parser {
    /// The parser for a file, chosen by its extension.
    pub fn from_filename(filename: &str, poe_version: u32) -> (r: Option<Self>)
        ensures
            match extension_of(filename@) {
                Some(ext) => r == parser_for_extension(ext, poe_version),
                None => r is None,
            },
    {
        match path_extension(filename) {
            Some(ext) => parser_for(ext.as_str(), poe_version),
            None => None,
        }
    }
}

} // verus!
