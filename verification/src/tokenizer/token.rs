//! Tokens: a piece of source text and where it starts.
use vstd::prelude::*;
use vstd::utf8::encode_utf8;
use vstd::string::StringSliceAdditionalSpecFns;
use super::stream::{FileLocation, LocationV, location_text};

verus! {

/// Token Object (data and FileLocation)
#[derive(Debug)]
pub struct Token {
    pub location: FileLocation,
    pub data: String,
}

/// The mathematical value of a [`Token`].
pub struct TokenV {
    pub location: LocationV,
    pub data: Seq<char>,
}

impl View for Token {
    type V = TokenV;

    open spec fn view(&self) -> TokenV {
        TokenV { location: self.location@, data: self.data@ }
    }
}

impl Clone for Token {
    fn clone(&self) -> (r: Self)
        ensures
            r@ == self@,
    {
        Token { location: self.location.clone(), data: self.data.clone() }
    }
}

/// The text that Rust's `{:?}` format gives for a string: the characters
/// in double quotes, with quotes, backslashes and control characters escaped.
pub uninterp spec fn string_debug_text(s: Seq<char>) -> Seq<char>;

/// Renders a string with Rust's `Debug` format (`format!("{:?}", s)`).
/// The result is a function of the characters of `s` alone.
#[verifier::external_body]
fn debug_string(s: &str) -> (r: String)
    ensures
        r@ == string_debug_text(s@),
{
    format!("{:?}", s)
}

/// The line shown for a token whose data reads `d` in debug form: `d`, one
/// tab (two when `d` takes fewer than 8 bytes), then the location.
pub open spec fn token_line(d: Seq<char>, loc: LocationV) -> Seq<char> {
    d + (if (encode_utf8(d).len() as usize) >= 8 { Seq::<char>::empty() } else { "\t"@ }) + "\t"@
        + location_text(loc)
}

/// Text of a token: its data in debug form, one or two tabs, and its location.
pub open spec fn token_text(t: TokenV) -> Seq<char> {
    token_line(string_debug_text(t.data), t.location)
}

impl Token {
    /// Generate a new token object
    pub fn new(location: FileLocation, data: String) -> (t: Self)
        ensures
            t@ == (TokenV { location: location@, data: data@ }),
    {
        Self { location, data }
    }

    /// The text shown for a token: its data in debug form, then its location.
    pub fn render(&self) -> (s: String)
        ensures
            s@ == token_text(self@),
    {
        let d = debug_string(self.data.as_str());
        Self::line_from_debug_text(d, &self.location)
    }

    /// The line shown for a token, given its data in debug form: the text,
    /// one tab (two when the text takes fewer than 8 bytes), then the location.
    pub fn line_from_debug_text(d: String, location: &FileLocation) -> (s: String)
        ensures
            s@ == token_line(d@, location@),
    {
        let mut s = d;
        let ghost dv = s@;
        let st = s.as_str();
        let n = st.len();
        assert(st@ == dv);
        let wide = n >= 8;
        assert(wide == ((encode_utf8(dv).len() as usize) >= 8));
        if !wide {
            s.append("\t");
        }
        s.append("\t");
        let loc = location.render();
        s.append(loc.as_str());
        proof {
            if wide {
                assert(dv + Seq::<char>::empty() =~= dv);
            } else {
                assert(dv + "\t"@ + "\t"@ + location_text(location@) =~= s@);
            }
        }
        s
    }
}

} // verus!
