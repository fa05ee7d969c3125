//! Which text format a ROSE file is turned into, and under which extension.

use vstd::prelude::*;
use crate::scan::lower;

verus! {

/// The kinds of ROSE files that can be turned into text.
#[derive(Clone, Copy, Debug, PartialEq, Eq, Structural)]
pub enum Format {
    Him,
    Idx,
    Ifo,
    Lit,
    Stb,
    Stl,
    Wstb,
    Til,
    Tsi,
    Zmd,
    Zmo,
    Zms,
    Zon,
    Zsc,
}

/// Why no format could be chosen for a file.
#[derive(Clone, Copy, Debug, PartialEq, Eq, Structural)]
pub enum FormatError {
    /// No type was given and the extension of the file names none.
    UnrecognizedExtension,
    /// The type that was given is none of the known ones.
    UnsupportedType,
}

/// The name of a format, in lower case: `him`, `idx`, `ifo`, `lit`, `stb`,
/// `stl`, `wstb`, `til`, `tsi`, `zmd`, `zmo`, `zms`, `zon`, `zsc`.
pub open spec fn format_name(format: Format) -> Seq<u8> {
    match format {
        Format::Him => seq![104u8, 105u8, 109u8],
        Format::Idx => seq![105u8, 100u8, 120u8],
        Format::Ifo => seq![105u8, 102u8, 111u8],
        Format::Lit => seq![108u8, 105u8, 116u8],
        Format::Stb => seq![115u8, 116u8, 98u8],
        Format::Stl => seq![115u8, 116u8, 108u8],
        Format::Wstb => seq![119u8, 115u8, 116u8, 98u8],
        Format::Til => seq![116u8, 105u8, 108u8],
        Format::Tsi => seq![116u8, 115u8, 105u8],
        Format::Zmd => seq![122u8, 109u8, 100u8],
        Format::Zmo => seq![122u8, 109u8, 111u8],
        Format::Zms => seq![122u8, 109u8, 115u8],
        Format::Zon => seq![122u8, 111u8, 110u8],
        Format::Zsc => seq![122u8, 115u8, 99u8],
    }
}

/// The format with the given name, letter for letter.
pub open spec fn format_named(name: Seq<u8>) -> Option<Format> {
    if name == format_name(Format::Him) {
        Some(Format::Him)
    } else if name == format_name(Format::Idx) {
        Some(Format::Idx)
    } else if name == format_name(Format::Ifo) {
        Some(Format::Ifo)
    } else if name == format_name(Format::Lit) {
        Some(Format::Lit)
    } else if name == format_name(Format::Stb) {
        Some(Format::Stb)
    } else if name == format_name(Format::Stl) {
        Some(Format::Stl)
    } else if name == format_name(Format::Wstb) {
        Some(Format::Wstb)
    } else if name == format_name(Format::Til) {
        Some(Format::Til)
    } else if name == format_name(Format::Tsi) {
        Some(Format::Tsi)
    } else if name == format_name(Format::Zmd) {
        Some(Format::Zmd)
    } else if name == format_name(Format::Zmo) {
        Some(Format::Zmo)
    } else if name == format_name(Format::Zms) {
        Some(Format::Zms)
    } else if name == format_name(Format::Zon) {
        Some(Format::Zon)
    } else if name == format_name(Format::Zsc) {
        Some(Format::Zsc)
    } else {
        None
    }
}

/// The bytes with every ASCII letter in lower case.
pub open spec fn lowered(s: Seq<u8>) -> Seq<u8> {
    Seq::new(s.len(), |i: int| lower(s[i]))
}

/// The format of a file: the one named by the type that was given, or,
/// where none was given, the one named by the file's extension in lower case.
pub open spec fn chosen_format(type_arg: Seq<u8>, extension: Seq<u8>) -> Result<Format, FormatError> {
    if type_arg.len() == 0 {
        match format_named(lowered(extension)) {
            Some(format) => Ok(format),
            None => Err(FormatError::UnrecognizedExtension),
        }
    } else {
        match format_named(type_arg) {
            Some(format) => Ok(format),
            None => Err(FormatError::UnsupportedType),
        }
    }
}

/// The extension of the text that a format is turned into: `csv` for `stb`
/// and `stl`, `obj` for `zms`, `json` for every other.
pub open spec fn target_extension(format: Format) -> Seq<u8> {
    match format {
        Format::Stb | Format::Stl => seq![99u8, 115u8, 118u8],
        Format::Zms => seq![111u8, 98u8, 106u8],
        _ => seq![106u8, 115u8, 111u8, 110u8],
    }
}

/// Every format is the one that its name names.
pub proof fn lemma_format_name_reads_back(format: Format)
    ensures
        format_named(format_name(format)) == Some(format),
{
    let name = format_name(format);
    assert(name.len() == 3 || name.len() == 4);
    assert(format_name(Format::Him)[0] == 104 && format_name(Format::Him)[2] == 109);
    assert(format_name(Format::Idx)[1] == 100);
    assert(format_name(Format::Ifo)[1] == 102);
    assert(format_name(Format::Lit)[0] == 108);
    assert(format_name(Format::Stb)[2] == 98 && format_name(Format::Stb).len() == 3);
    assert(format_name(Format::Stl)[2] == 108 && format_name(Format::Stl)[0] == 115);
    assert(format_name(Format::Wstb).len() == 4);
    assert(format_name(Format::Til)[0] == 116 && format_name(Format::Til)[1] == 105);
    assert(format_name(Format::Tsi)[1] == 115 && format_name(Format::Tsi)[0] == 116);
    assert(format_name(Format::Zmd)[2] == 100 && format_name(Format::Zmd)[1] == 109);
    assert(format_name(Format::Zmo)[2] == 111 && format_name(Format::Zmo)[1] == 109);
    assert(format_name(Format::Zms)[2] == 115 && format_name(Format::Zms)[1] == 109);
    assert(format_name(Format::Zon)[1] == 111 && format_name(Format::Zon)[0] == 122);
    assert(format_name(Format::Zsc)[1] == 115 && format_name(Format::Zsc)[0] == 122);
}

/// Whether the bytes are the three given ones.
fn is_word(s: &[u8], a: u8, b: u8, c: u8) -> (out: bool)
    ensures
        out == (s@ == seq![a, b, c]),
{
    if s.len() == 3 && s[0] == a && s[1] == b && s[2] == c {
        assert(s@ =~= seq![a, b, c]);
        true
    } else {
        assert(seq![a, b, c].len() == 3 && seq![a, b, c][0] == a && seq![a, b, c][1] == b && seq![
            a,
            b,
            c,
        ][2] == c);
        false
    }
}

/// Whether the bytes spell `wstb`.
fn is_wstb(s: &[u8]) -> (out: bool)
    ensures
        out == (s@ == format_name(Format::Wstb)),
{
    let ghost word = format_name(Format::Wstb);
    if s.len() == 4 && s[0] == 119 && s[1] == 115 && s[2] == 116 && s[3] == 98 {
        assert(s@ =~= word);
        true
    } else {
        assert(word.len() == 4 && word[0] == 119 && word[1] == 115 && word[2] == 116 && word[3] == 98);
        false
    }
}

/// The format with the given name, letter for letter.
pub fn named_format(name: &[u8]) -> (out: Option<Format>)
    ensures
        out == format_named(name@),
{
    if is_word(name, 104, 105, 109) {
        Some(Format::Him)
    } else if is_word(name, 105, 100, 120) {
        Some(Format::Idx)
    } else if is_word(name, 105, 102, 111) {
        Some(Format::Ifo)
    } else if is_word(name, 108, 105, 116) {
        Some(Format::Lit)
    } else if is_word(name, 115, 116, 98) {
        Some(Format::Stb)
    } else if is_word(name, 115, 116, 108) {
        Some(Format::Stl)
    } else if is_wstb(name) {
        Some(Format::Wstb)
    } else if is_word(name, 116, 105, 108) {
        Some(Format::Til)
    } else if is_word(name, 116, 115, 105) {
        Some(Format::Tsi)
    } else if is_word(name, 122, 109, 100) {
        Some(Format::Zmd)
    } else if is_word(name, 122, 109, 111) {
        Some(Format::Zmo)
    } else if is_word(name, 122, 109, 115) {
        Some(Format::Zms)
    } else if is_word(name, 122, 111, 110) {
        Some(Format::Zon)
    } else if is_word(name, 122, 115, 99) {
        Some(Format::Zsc)
    } else {
        None
    }
}

/// The bytes with every ASCII letter in lower case.
pub fn to_lower(s: &[u8]) -> (out: Vec<u8>)
    ensures
        out@ == lowered(s@),
{
    let mut out: Vec<u8> = Vec::new();
    let mut i: usize = 0;
    while i < s.len()
        invariant
            i <= s@.len(),
            out@.len() == i,
            forall|j: int| 0 <= j < i ==> out@[j] == lower(s@[j]),
        decreases s@.len() - i,
    {
        let b = s[i];
        if 65 <= b && b <= 90 {
            out.push(b + 32);
        } else {
            out.push(b);
        }
        i = i + 1;
    }
    assert(out@ =~= lowered(s@));
    out
}

/// Chooses the format of a file from the type that was given, which may be
/// empty, and the file's extension.
pub fn resolve_format(type_arg: &[u8], extension: &[u8]) -> (out: Result<Format, FormatError>)
    ensures
        out == chosen_format(type_arg@, extension@),
{
    if type_arg.len() == 0 {
        let lowered_extension = to_lower(extension);
        match named_format(lowered_extension.as_slice()) {
            Some(format) => Ok(format),
            None => Err(FormatError::UnrecognizedExtension),
        }
    } else {
        match named_format(type_arg) {
            Some(format) => Ok(format),
            None => Err(FormatError::UnsupportedType),
        }
    }
}

/// The extension of the file that the text is written to: that of the text
/// format, behind the file's own extension in lower case and a dot where
/// that one is to be kept.
pub fn output_extension(format: Format, extension: &[u8], keep: bool) -> (out: Vec<u8>)
    ensures
        out@ == (if keep {
            lowered(extension@) + seq![46u8]
        } else {
            Seq::empty()
        }) + target_extension(format),
{
    let mut out: Vec<u8> = if keep {
        let mut kept = to_lower(extension);
        kept.push(46);
        kept
    } else {
        Vec::new()
    };
    let ghost head = out@;
    match format {
        Format::Stb | Format::Stl => {
            out.push(99);
            out.push(115);
            out.push(118);
        },
        Format::Zms => {
            out.push(111);
            out.push(98);
            out.push(106);
        },
        _ => {
            out.push(106);
            out.push(115);
            out.push(111);
            out.push(110);
        },
    }
    assert(out@ =~= head + target_extension(format));
    assert(head =~= (if keep {
        lowered(extension@) + seq![46u8]
    } else {
        Seq::empty()
    }));
    out
}

} // verus!
