//! Text repair and font mapping.

use vstd::prelude::*;
use vstd::utf8::*;
use crate::text::{chars_of, str_eq, string_from_chars, utf8_to_string};

verus! {

/// The byte that a character below U+0100 stands for when a UTF-8 text was
/// read as Latin-1.
pub open spec fn latin1_bytes(s: Seq<char>) -> Seq<u8> {
    s.map_values(|c: char| (c as u32) as u8)
}

/// Every character lies in the Latin-1 range (code point at most 0xFF).
pub open spec fn all_latin1(s: Seq<char>) -> bool {
    forall|i: int| 0 <= i < s.len() ==> (#[trigger] s[i] as u32) <= 0xFF
}

/// The replacement character U+FFFD occurs in `s`.
pub open spec fn has_replacement_char(s: Seq<char>) -> bool {
    exists|i: int| 0 <= i < s.len() && s[i] == '\u{FFFD}'
}

/// What `fix_mojibake` gives back: the Latin-1 bytes of `s` decoded as UTF-8,
/// when `s` is non-empty, all Latin-1, those bytes are valid UTF-8 and the
/// decoded text holds no U+FFFD; `s` itself otherwise.
pub open spec fn spec_fix_mojibake(s: Seq<char>) -> Seq<char> {
    if s.len() == 0 {
        s
    } else if all_latin1(s) && valid_utf8(latin1_bytes(s)) && !has_replacement_char(
        decode_utf8(latin1_bytes(s)),
    ) {
        decode_utf8(latin1_bytes(s))
    } else {
        s
    }
}

fn contains_replacement_char(v: &Vec<char>) -> (r: bool)
    ensures
        r == has_replacement_char(v@),
{
    let mut i: usize = 0;
    while i < v.len()
        invariant
            i <= v.len(),
            forall|j: int| 0 <= j < i ==> v@[j] != '\u{FFFD}',
        decreases v.len() - i,
    {
        if v[i] == '\u{FFFD}' {
            return true;
        }
        i = i + 1;
    }
    false
}

/// OBS on Windows sometimes writes UTF-8 text that was read as Latin-1
/// (e.g. "JÃ¡" for "Já"); this undoes that when it can.
pub fn fix_mojibake(s: &str) -> (r: String)
    ensures
        r@ == spec_fix_mojibake(s@),
{
    let chars = chars_of(s);
    if chars.len() == 0 {
        return string_from_chars(chars.as_slice());
    }
    let mut bytes: Vec<u8> = Vec::new();
    let mut i: usize = 0;
    while i < chars.len()
        invariant
            i <= chars.len(),
            chars@ == s@,
            bytes@ == latin1_bytes(chars@.take(i as int)),
            all_latin1(chars@.take(i as int)),
        decreases chars.len() - i,
    {
        let c = chars[i];
        if (c as u32) > 0xFF {
            assert(!all_latin1(s@)) by {
                assert(s@[i as int] == c);
            }
            return string_from_chars(chars.as_slice());
        }
        bytes.push((c as u32) as u8);
        assert(chars@.take(i + 1) =~= chars@.take(i as int).push(c));
        assert(bytes@ =~= latin1_bytes(chars@.take(i + 1)));
        i = i + 1;
    }
    assert(chars@.take(chars.len() as int) =~= chars@);
    match utf8_to_string(bytes.as_slice()) {
        Some(decoded) => {
            let dchars = chars_of(decoded.as_str());
            if !contains_replacement_char(&dchars) {
                decoded
            } else {
                string_from_chars(chars.as_slice())
            }
        },
        None => string_from_chars(chars.as_slice()),
    }
}

/// The characters that bytes stand for when they are read as Latin-1: one
/// character per byte, from U+0000 to U+00FF.
pub open spec fn read_as_latin1(bytes: Seq<u8>) -> Seq<char> {
    bytes.map_values(|b: u8| (b as u32) as char)
}

/// Repair undoes the damage it is for: a text without U+FFFD,
/// written as UTF-8 and read back as Latin-1, is repaired to itself.
pub proof fn law_fix_mojibake_undoes_latin1_reading(t: Seq<char>)
    requires
        !has_replacement_char(t),
    ensures
        spec_fix_mojibake(read_as_latin1(encode_utf8(t))) == t,
{
    if t.len() == 0 {
        assert(read_as_latin1(encode_utf8(t)) =~= t);
        return;
    }
    let b = encode_utf8(t);
    let s = read_as_latin1(b);
    assert(b.len() > 0) by {
        assert(encode_scalar(t[0] as u32).len() > 0);
    }
    assert forall|i: int| 0 <= i < s.len() implies (#[trigger] s[i] as u32) <= 0xFF
        && ((s[i] as u32) as u8) == b[i] by {
        let x = b[i] as u32;
        assert(x <= 0xFF);
        assert(s[i] == x as char);
    }
    assert(latin1_bytes(s) =~= b);
    encode_utf8_valid_utf8(t);
    encode_utf8_decode_utf8(t);
}

/// Text that is plain ASCII is left as it is.
pub proof fn law_fix_mojibake_keeps_ascii(s: Seq<char>)
    requires
        is_ascii_chars(s),
    ensures
        spec_fix_mojibake(s) == s,
{
    if s.len() > 0 {
        is_ascii_chars_encode_utf8(s);
        assert forall|i: int| 0 <= i < s.len() implies (#[trigger] s[i] as u32) <= 0x7F
            && latin1_bytes(s)[i] == encode_utf8(s)[i] by {
            assert('\0' <= s[i] <= '\u{7f}');
        }
        assert(latin1_bytes(s) =~= encode_utf8(s));
        encode_utf8_valid_utf8(s);
        encode_utf8_decode_utf8(s);
        assert(!has_replacement_char(s)) by {
            if has_replacement_char(s) {
                let i = choose|i: int| 0 <= i < s.len() && s[i] == '\u{FFFD}';
                assert('\0' <= s[i] <= '\u{7f}');
            }
        }
    }
}

/// A web-safe font family standing for a Windows system font, and the Google
/// Fonts family id to download for it, if any.
pub struct FontMapping {
    pub web: &'static str,
    pub google_font: Option<&'static str>,
}

/// The web font family and Google Fonts id that stand for a Windows font face,
/// or `None` for a face that has no mapping.
pub open spec fn spec_web_font(face: Seq<char>) -> Option<(Seq<char>, Option<Seq<char>>)> {
    if face == "OCR A Extended"@ {
        Some(("Share Tech Mono"@, Some("Share+Tech+Mono"@)))
    } else if face == "Comic Sans MS"@ {
        Some(("Indie Flower"@, Some("Indie+Flower"@)))
    } else if face == "Rockwell Extra Bold"@ {
        Some(("Alfa Slab One"@, Some("Alfa+Slab+One"@)))
    } else if face == "Bangers"@ {
        Some(("Bangers"@, Some("Bangers"@)))
    } else if face == "Impact"@ {
        Some(("Anton"@, Some("Anton"@)))
    } else if face == "Arial"@ {
        Some(("Arial, sans-serif"@, None))
    } else if face == "Segoe UI"@ {
        Some(("'Segoe UI', system-ui, sans-serif"@, None))
    } else {
        None
    }
}

/// The view of a font mapping: its web family and its Google Fonts id.
pub open spec fn font_mapping_view(m: FontMapping) -> (Seq<char>, Option<Seq<char>>) {
    (m.web@, match m.google_font {
        Some(g) => Some(g@),
        None => None,
    })
}

/// Maps Windows system font names to web-safe equivalents and a Google Fonts id.
pub fn get_web_font(face: &str) -> (r: Option<FontMapping>)
    ensures
        r is Some <==> spec_web_font(face@) is Some,
        r matches Some(m) ==> font_mapping_view(m) == spec_web_font(face@)->0,
{
    if str_eq(face, "OCR A Extended") {
        Some(FontMapping { web: "Share Tech Mono", google_font: Some("Share+Tech+Mono") })
    } else if str_eq(face, "Comic Sans MS") {
        Some(FontMapping { web: "Indie Flower", google_font: Some("Indie+Flower") })
    } else if str_eq(face, "Rockwell Extra Bold") {
        Some(FontMapping { web: "Alfa Slab One", google_font: Some("Alfa+Slab+One") })
    } else if str_eq(face, "Bangers") {
        Some(FontMapping { web: "Bangers", google_font: Some("Bangers") })
    } else if str_eq(face, "Impact") {
        Some(FontMapping { web: "Anton", google_font: Some("Anton") })
    } else if str_eq(face, "Arial") {
        Some(FontMapping { web: "Arial, sans-serif", google_font: None })
    } else if str_eq(face, "Segoe UI") {
        Some(FontMapping { web: "'Segoe UI', system-ui, sans-serif", google_font: None })
    } else {
        None
    }
}

} // verus!
