//! Supported document formats and their file-name conventions.

use vstd::prelude::*;
use crate::text::{ascii_lower_seq, ascii_lowercase_chars, chars_eq_str, chars_of};

verus! {

/// Supported document formats.
#[derive(Debug, Clone, Copy, PartialEq, Eq, Structural, Hash, Default)]
pub enum DocumentFormat {
    /// Office Open XML Word document (`.docx`).
    #[default]
    Docx,
    /// Office Open XML Excel spreadsheet (`.xlsx`).
    Xlsx,
    /// Office Open XML PowerPoint presentation (`.pptx`).
    Pptx,
    /// Legacy Word Binary document (`.doc`).
    Doc,
    /// Legacy Excel Binary workbook (`.xls`).
    Xls,
    /// Legacy PowerPoint Binary presentation (`.ppt`).
    Ppt,
}

/// The canonical extension of each format.
pub open spec fn spec_extension(f: DocumentFormat) -> Seq<char> {
    match f {
        DocumentFormat::Docx => "docx"@,
        DocumentFormat::Xlsx => "xlsx"@,
        DocumentFormat::Pptx => "pptx"@,
        DocumentFormat::Doc => "doc"@,
        DocumentFormat::Xls => "xls"@,
        DocumentFormat::Ppt => "ppt"@,
    }
}

/// The format a lower-case extension names: the base OOXML formats with
/// their macro-enabled and template siblings, and the legacy compound
/// files with their template/show/add-in siblings.
pub open spec fn spec_from_lower_extension(e: Seq<char>) -> Option<DocumentFormat> {
    if e == "docx"@ || e == "docm"@ || e == "dotx"@ || e == "dotm"@ {
        Some(DocumentFormat::Docx)
    } else if e == "xlsx"@ || e == "xlsm"@ || e == "xltx"@ || e == "xltm"@ || e == "xlam"@ || e
        == "xlsb"@ {
        Some(DocumentFormat::Xlsx)
    } else if e == "pptx"@ || e == "pptm"@ || e == "potx"@ || e == "potm"@ || e == "ppsx"@ || e
        == "ppsm"@ {
        Some(DocumentFormat::Pptx)
    } else if e == "doc"@ || e == "dot"@ {
        Some(DocumentFormat::Doc)
    } else if e == "xls"@ || e == "xlt"@ || e == "xla"@ {
        Some(DocumentFormat::Xls)
    } else if e == "ppt"@ || e == "pot"@ || e == "pps"@ {
        Some(DocumentFormat::Ppt)
    } else {
        None
    }
}

/// Whether a format is one of the legacy binary formats.
pub open spec fn spec_is_legacy(f: DocumentFormat) -> bool {
    f == DocumentFormat::Doc || f == DocumentFormat::Xls || f == DocumentFormat::Ppt
}

/// The extension of the last component of a `/`-separated path, the way
/// `Path::extension` reads it: the text after the last `.` of the file
/// name, unless that dot is the name's first character.
pub open spec fn spec_path_extension(p: Seq<char>) -> Option<Seq<char>> {
    let name = spec_file_name(p);
    match spec_last_dot(name) {
        Some(i) => if i > 0 {
            Some(name.subrange(i + 1, name.len() as int))
        } else {
            None
        },
        None => None,
    }
}

/// The part of `p` after its last `/`.
pub open spec fn spec_file_name(p: Seq<char>) -> Seq<char> {
    match spec_last_index_of(p, '/') {
        Some(i) => p.subrange(i + 1, p.len() as int),
        None => p,
    }
}

/// The index of the last `.` in `s`.
pub open spec fn spec_last_dot(s: Seq<char>) -> Option<int> {
    spec_last_index_of(s, '.')
}

/// The index of the last occurrence of `c` in `s`.
pub open spec fn spec_last_index_of(s: Seq<char>, c: char) -> Option<int> {
    if exists|i: int| 0 <= i < s.len() && s[i] == c {
        Some(choose|i: int| 0 <= i < s.len() && s[i] == c && forall|j: int| i < j < s.len() ==> s[j] != c)
    } else {
        None
    }
}

/// The index of the last occurrence of `c` in `v`.
pub fn last_index_of(v: &[char], c: char) -> (r: Option<usize>)
    ensures
        r matches Some(i) ==> spec_last_index_of(v@, c) == Some(i as int),
        r is None ==> spec_last_index_of(v@, c) is None,
        r matches Some(i) ==> i < v@.len() && v@[i as int] == c && forall|j: int|
            i < j < v@.len() ==> v@[j] != c,
        r is None ==> forall|j: int| 0 <= j < v@.len() ==> v@[j] != c,
{
    let mut i = v.len();
    while i > 0
        invariant
            i <= v@.len(),
            forall|j: int| i <= j < v@.len() ==> v@[j] != c,
        decreases i,
    {
        if v[i - 1] == c {
            proof {
                let k = (i - 1) as int;
                assert(0 <= k < v@.len() && v@[k] == c && forall|j: int| k < j < v@.len() ==> v@[j] != c);
                let w = choose|w: int|
                    0 <= w < v@.len() && v@[w] == c && forall|j: int| w < j < v@.len() ==> v@[j] != c;
                assert(w == k) by {
                    if w < k {
                        assert(v@[k] != c);
                    } else if w > k {
                        assert(v@[w] != c);
                    }
                }
            }
            return Some(i - 1);
        }
        i = i - 1;
    }
    None
}

impl DocumentFormat {
    /// Returns the canonical file extension (without the leading dot).
    pub fn extension(&self) -> (r: &'static str)
        ensures
            r@ == spec_extension(*self),
    {
        match self {
            DocumentFormat::Docx => "docx",
            DocumentFormat::Xlsx => "xlsx",
            DocumentFormat::Pptx => "pptx",
            DocumentFormat::Doc => "doc",
            DocumentFormat::Xls => "xls",
            DocumentFormat::Ppt => "ppt",
        }
    }

    /// Returns the canonical MIME type.
    pub fn mime_type(&self) -> (r: &'static str)
        ensures
            r@ == match *self {
                DocumentFormat::Docx =>
                    "application/vnd.openxmlformats-officedocument.wordprocessingml.document"@,
                DocumentFormat::Xlsx =>
                    "application/vnd.openxmlformats-officedocument.spreadsheetml.sheet"@,
                DocumentFormat::Pptx =>
                    "application/vnd.openxmlformats-officedocument.presentationml.presentation"@,
                DocumentFormat::Doc => "application/msword"@,
                DocumentFormat::Xls => "application/vnd.ms-excel"@,
                DocumentFormat::Ppt => "application/vnd.ms-powerpoint"@,
            },
    {
        match self {
            DocumentFormat::Docx =>
                "application/vnd.openxmlformats-officedocument.wordprocessingml.document",
            DocumentFormat::Xlsx => "application/vnd.openxmlformats-officedocument.spreadsheetml.sheet",
            DocumentFormat::Pptx =>
                "application/vnd.openxmlformats-officedocument.presentationml.presentation",
            DocumentFormat::Doc => "application/msword",
            DocumentFormat::Xls => "application/vnd.ms-excel",
            DocumentFormat::Ppt => "application/vnd.ms-powerpoint",
        }
    }

    /// Detect format from a file extension string (case-insensitive, without dot).
    pub fn from_extension(ext: &str) -> (r: Option<DocumentFormat>)
        ensures
            r == spec_from_lower_extension(ascii_lower_seq(ext@)),
    {
        let e = ascii_lowercase_chars(ext);
        let e = e.as_slice();
        if chars_eq_str(e, "docx") || chars_eq_str(e, "docm") || chars_eq_str(e, "dotx")
            || chars_eq_str(e, "dotm") {
            Some(DocumentFormat::Docx)
        } else if chars_eq_str(e, "xlsx") || chars_eq_str(e, "xlsm") || chars_eq_str(e, "xltx")
            || chars_eq_str(e, "xltm") || chars_eq_str(e, "xlam") || chars_eq_str(e, "xlsb") {
            Some(DocumentFormat::Xlsx)
        } else if chars_eq_str(e, "pptx") || chars_eq_str(e, "pptm") || chars_eq_str(e, "potx")
            || chars_eq_str(e, "potm") || chars_eq_str(e, "ppsx") || chars_eq_str(e, "ppsm") {
            Some(DocumentFormat::Pptx)
        } else if chars_eq_str(e, "doc") || chars_eq_str(e, "dot") {
            Some(DocumentFormat::Doc)
        } else if chars_eq_str(e, "xls") || chars_eq_str(e, "xlt") || chars_eq_str(e, "xla") {
            Some(DocumentFormat::Xls)
        } else if chars_eq_str(e, "ppt") || chars_eq_str(e, "pot") || chars_eq_str(e, "pps") {
            Some(DocumentFormat::Ppt)
        } else {
            None
        }
    }

    /// Detect format from a `/`-separated file path's extension.
    pub fn from_path(path: &str) -> (r: Option<DocumentFormat>)
        ensures
            r == match spec_path_extension(path@) {
                Some(e) => spec_from_lower_extension(ascii_lower_seq(e)),
                None => None,
            },
    {
        let p = chars_of(path);
        let plen = p.len();
        let name_start = match last_index_of(p.as_slice(), '/') {
            Some(i) => {
                assert(i < plen);
                i + 1
            },
            None => 0,
        };
        let mut name: Vec<char> = Vec::new();
        let mut k = name_start;
        while k < p.len()
            invariant
                name_start <= k <= p@.len(),
                name@ == p@.subrange(name_start as int, k as int),
            decreases p@.len() - k,
        {
            name.push(p[k]);
            k = k + 1;
        }
        assert(name@ == spec_file_name(path@));
        match last_index_of(name.as_slice(), '.') {
            Some(i) => {
                if i == 0 {
                    return None;
                }
                let mut ext = String::new();
                let mut j = i + 1;
                while j < name.len()
                    invariant
                        i + 1 <= j <= name@.len(),
                        ext@ == name@.subrange(i + 1, j as int),
                    decreases name@.len() - j,
                {
                    crate::text::push_char(&mut ext, name[j]);
                    j = j + 1;
                }
                Self::from_extension(ext.as_str())
            },
            None => None,
        }
    }

    /// If this is a legacy format, return the corresponding OOXML format.
    pub fn ooxml_upgrade(&self) -> (r: Option<DocumentFormat>)
        ensures
            r == match *self {
                DocumentFormat::Doc => Some(DocumentFormat::Docx),
                DocumentFormat::Xls => Some(DocumentFormat::Xlsx),
                DocumentFormat::Ppt => Some(DocumentFormat::Pptx),
                _ => None::<DocumentFormat>,
            },
    {
        match self {
            DocumentFormat::Doc => Some(DocumentFormat::Docx),
            DocumentFormat::Xls => Some(DocumentFormat::Xlsx),
            DocumentFormat::Ppt => Some(DocumentFormat::Pptx),
            _ => None,
        }
    }

    /// Returns true if this is a legacy binary format (doc/xls/ppt).
    pub fn is_legacy(&self) -> (r: bool)
        ensures
            r == spec_is_legacy(*self),
    {
        match self {
            DocumentFormat::Doc | DocumentFormat::Xls | DocumentFormat::Ppt => true,
            _ => false,
        }
    }
}

/// Every format's canonical extension names that format again.
pub proof fn lemma_extension_round_trips(f: DocumentFormat)
    ensures
        spec_from_lower_extension(ascii_lower_seq(spec_extension(f))) == Some(f),
{
    reveal_strlit("docx");
    reveal_strlit("docm");
    reveal_strlit("dotx");
    reveal_strlit("dotm");
    reveal_strlit("xlsx");
    reveal_strlit("xlsm");
    reveal_strlit("xltx");
    reveal_strlit("xltm");
    reveal_strlit("xlam");
    reveal_strlit("xlsb");
    reveal_strlit("pptx");
    reveal_strlit("pptm");
    reveal_strlit("potx");
    reveal_strlit("potm");
    reveal_strlit("ppsx");
    reveal_strlit("ppsm");
    reveal_strlit("doc");
    reveal_strlit("dot");
    reveal_strlit("xls");
    reveal_strlit("xlt");
    reveal_strlit("xla");
    reveal_strlit("ppt");
    reveal_strlit("pot");
    reveal_strlit("pps");
    let e = spec_extension(f);
    assert(ascii_lower_seq(e) =~= e);
    if f == DocumentFormat::Xlsx {
        assert(e[0] != "docx"@[0]);
    } else if f == DocumentFormat::Pptx {
        assert(e[0] != "docx"@[0] && e[0] != "xlsx"@[0]);
    } else if f == DocumentFormat::Xls {
        assert(e[0] != "doc"@[0]);
    } else if f == DocumentFormat::Ppt {
        assert(e[0] != "doc"@[0] && e[0] != "xls"@[0]);
    }
}

/// A format has an OOXML upgrade exactly when it is a legacy format, and
/// the upgrade is never itself legacy.
pub proof fn lemma_upgrade_iff_legacy(f: DocumentFormat)
    ensures
        (match f {
            DocumentFormat::Doc => Some(DocumentFormat::Docx),
            DocumentFormat::Xls => Some(DocumentFormat::Xlsx),
            DocumentFormat::Ppt => Some(DocumentFormat::Pptx),
            _ => None::<DocumentFormat>,
        }) matches Some(u) ==> spec_is_legacy(f) && !spec_is_legacy(u),
        spec_is_legacy(f) ==> (match f {
            DocumentFormat::Doc => Some(DocumentFormat::Docx),
            DocumentFormat::Xls => Some(DocumentFormat::Xlsx),
            DocumentFormat::Ppt => Some(DocumentFormat::Pptx),
            _ => None::<DocumentFormat>,
        }) is Some,
{
}

} // verus!
