use vstd::prelude::*;

verus! {

/// The characters that Unicode gives the White_Space property (what
/// `char::is_whitespace` tests).
pub open spec fn is_white_space(c: char) -> bool {
    let u = c as u32;
    (0x09 <= u <= 0x0d) || u == 0x20 || u == 0x85 || u == 0xa0 || u == 0x1680 || (0x2000 <= u
        <= 0x200a) || u == 0x2028 || u == 0x2029 || u == 0x202f || u == 0x205f || u == 0x3000
}

/// ASCII punctuation: the printable ASCII characters that are neither letters,
/// digits nor the space.
pub open spec fn is_ascii_punct(c: char) -> bool {
    let u = c as u32;
    (0x21 <= u <= 0x2f) || (0x3a <= u <= 0x40) || (0x5b <= u <= 0x60) || (0x7b <= u <= 0x7e)
}

/// A character that counts towards the length that picks the point size.
pub open spec fn is_significant(c: char) -> bool {
    !is_ascii_punct(c) && !is_white_space(c)
}

/// Number of significant characters in `s`.
pub open spec fn significant_count(s: Seq<char>) -> nat
    decreases s.len(),
{
    if s.len() == 0 {
        0
    } else {
        significant_count(s.drop_last()) + if is_significant(s.last()) {
            1nat
        } else {
            0nat
        }
    }
}

/// The point size chosen for a text with `n` significant characters.
pub open spec fn point_size_for(n: nat) -> u32 {
    if n > 200 {
        48
    } else if n > 150 {
        56
    } else if n > 100 {
        64
    } else if n > 60 {
        76
    } else if n > 30 {
        88
    } else {
        100
    }
}

pub fn is_whitespace_char(c: char) -> (r: bool)
    ensures
        r == is_white_space(c),
{
    let u = c as u32;
    (0x09 <= u && u <= 0x0d) || u == 0x20 || u == 0x85 || u == 0xa0 || u == 0x1680 || (0x2000
        <= u && u <= 0x200a) || u == 0x2028 || u == 0x2029 || u == 0x202f || u == 0x205f || u
        == 0x3000
}

pub fn is_significant_char(c: char) -> (r: bool)
    ensures
        r == is_significant(c),
{
    let u = c as u32;
    let punct = (0x21 <= u && u <= 0x2f) || (0x3a <= u && u <= 0x40) || (0x5b <= u && u <= 0x60)
        || (0x7b <= u && u <= 0x7e);
    !punct && !is_whitespace_char(c)
}

/// The characters of `text`, in order.
pub fn chars_of(text: &str) -> (r: Vec<char>)
    ensures
        r@ == text@,
{
    let n = text.unicode_len();
    let mut r: Vec<char> = Vec::new();
    let mut i: usize = 0;
    while i < n
        invariant
            n == text@.len(),
            i <= n,
            r@ == text@.subrange(0, i as int),
        decreases n - i,
    {
        r.push(text.get_char(i));
        i = i + 1;
    }
    assert(r@ == text@.subrange(0, n as int));
    r
}

/// Counts the characters of `text` that are neither ASCII punctuation nor
/// whitespace.
pub fn count_significant(text: &str) -> (r: usize)
    ensures
        r == significant_count(text@),
{
    let chars = chars_of(text);
    let mut r: usize = 0;
    let mut i: usize = 0;
    while i < chars.len()
        invariant
            chars@ == text@,
            i <= chars.len(),
            r == significant_count(chars@.subrange(0, i as int)),
            r <= i,
        decreases chars.len() - i,
    {
        assert(chars@.subrange(0, i + 1).drop_last() == chars@.subrange(0, i as int));
        if is_significant_char(chars[i]) {
            r = r + 1;
        }
        i = i + 1;
    }
    assert(chars@.subrange(0, i as int) == chars@);
    r
}

/// Point size from the number of significant characters: the longer the text,
/// the smaller the type.
pub fn get_font_size(text_len: usize) -> (r: u32)
    ensures
        r == point_size_for(text_len as nat),
        text_len > 200 ==> r == 48,
{
    if text_len > 200 {
        48
    } else if text_len > 150 {
        56
    } else if text_len > 100 {
        64
    } else if text_len > 60 {
        76
    } else if text_len > 30 {
        88
    } else {
        100
    }
}

/// Line height in pixels: 1.1 times the point size, rounded down.
pub fn line_height_for(point_size: u32) -> (r: u32)
    requires
        point_size <= 100_000,
    ensures
        r == point_size * 11 / 10,
{
    point_size * 11 / 10
}

/// The text used when a request gives none.
pub fn default_text() -> (r: String)
    ensures
        r@ == "Hello World"@,
{
    String::from_str("Hello World")
}

/// The font name used when a request gives none.
pub fn default_font() -> (r: String)
    ensures
        r@ == "noto-sans-thai"@,
{
    String::from_str("noto-sans-thai")
}

/// The two fonts that can be chosen by name.
#[derive(Clone, Copy, Debug, PartialEq, Eq, Structural)]
pub enum FontKey {
    /// Kanit Bold.
    Kanit,
    /// Noto Sans Thai Bold: the default, and what any unknown name selects.
    NotoSansThai,
}

pub open spec fn font_key_spec(name: Seq<char>) -> FontKey {
    if name == "kanit"@ {
        FontKey::Kanit
    } else {
        FontKey::NotoSansThai
    }
}

/// Selects a font by name; "kanit" selects Kanit and every other name the
/// default Thai-script font.
pub fn font_key(name: &str) -> (r: FontKey)
    ensures
        r == font_key_spec(name@),
{
    let kanit = "kanit";
    proof {
        reveal_strlit("kanit");
    }
    let n = name.unicode_len();
    if n != 5 {
        return FontKey::NotoSansThai;
    }
    let mut i: usize = 0;
    while i < 5
        invariant
            n == 5,
            name@.len() == 5,
            kanit@ == "kanit"@,
            kanit@.len() == 5,
            i <= 5,
            forall|j: int| 0 <= j < i ==> name@[j] == kanit@[j],
        decreases 5 - i,
    {
        if name.get_char(i) != kanit.get_char(i) {
            return FontKey::NotoSansThai;
        }
        i = i + 1;
    }
    assert(name@ == "kanit"@);
    FontKey::Kanit
}

} // verus!

verus! {

/// Relies on `String::push`: appends one character at the end.
#[verifier::external_body]
pub(crate) fn push_char(s: &mut String, c: char)
    ensures
        final(s)@ == old(s)@.push(c),
{
    s.push(c)
}

/// A `String` holding the characters of `v`.
pub fn string_of(v: &Vec<char>) -> (r: String)
    ensures
        r@ == v@,
{
    let mut r = String::new();
    let mut i: usize = 0;
    while i < v.len()
        invariant
            i <= v.len(),
            r@ == v@.subrange(0, i as int),
        decreases v.len() - i,
    {
        push_char(&mut r, v[i]);
        i = i + 1;
    }
    assert(r@ == v@.subrange(0, v.len() as int));
    r
}

} // verus!
