//! A character stream over the source text that tracks the current line and column.
use vstd::prelude::*;
use crate::text::{nat_text, usize_text};

verus! {

/// A position in a source file.
#[derive(Debug)]
pub struct FileLocation {
    pub name: String,
    pub col: usize,
    pub row: usize,
}

/// The mathematical value of a [`FileLocation`].
pub struct LocationV {
    pub name: Seq<char>,
    pub col: usize,
    pub row: usize,
}

impl View for FileLocation {
    type V = LocationV;

    open spec fn view(&self) -> LocationV {
        LocationV { name: self.name@, col: self.col, row: self.row }
    }
}

impl Clone for FileLocation {
    fn clone(&self) -> (r: Self)
        ensures
            r@ == self@,
    {
        FileLocation { name: self.name.clone(), col: self.col, row: self.row }
    }
}

/// The location after reading character `c` at location `l`:
/// one column further, or the first column of the next line after a newline.
pub open spec fn location_after(l: LocationV, c: char) -> LocationV {
    if c == '\n' {
        LocationV { name: l.name, col: 1, row: (l.row + 1) as usize }
    } else {
        LocationV { name: l.name, col: (l.col + 1) as usize, row: l.row }
    }
}

/// Text of a location: `Line <row>:<col> in file '<name>'`.
pub open spec fn location_text(l: LocationV) -> Seq<char> {
    "Line "@ + nat_text(l.row as nat) + ":"@ + nat_text(l.col as nat) + " in file '"@ + l.name
        + "'"@
}

impl FileLocation {
    pub fn new() -> (l: Self)
        ensures
            l@.name == "[unknown]"@,
            l@.col == 1,
            l@.row == 1,
    {
        FileLocation { name: String::from_str("[unknown]"), col: 1, row: 1 }
    }

    pub fn from_name(name: &str) -> (l: Self)
        ensures
            l@ == (LocationV { name: name@, col: 1, row: 1 }),
    {
        FileLocation { name: name.to_owned(), col: 1, row: 1 }
    }

    pub fn consume_char(&mut self, value: char)
        requires
            old(self).col < usize::MAX,
            old(self).row < usize::MAX,
        ensures
            final(self)@ == location_after(old(self)@, value),
    {
        self.col = self.col + 1;
        if value == '\n' {
            self.row = self.row + 1;
            self.col = 1;
        }
    }

    /// The text shown for this location: `Line <row>:<col> in file '<name>'`.
    pub fn render(&self) -> (s: String)
        ensures
            s@ == location_text(self@),
    {
        let mut s = String::from_str("Line ");
        let row = usize_text(self.row);
        s.append(row.as_str());
        s.append(":");
        let col = usize_text(self.col);
        s.append(col.as_str());
        s.append(" in file '");
        s.append(self.name.as_str());
        s.append("'");
        s
    }
}

/// Character stream with a cursor and the location of the cursor.
pub struct Stream {
    index: usize,
    data: String,
    location: FileLocation,
}

/// The mathematical value of a [`Stream`].
pub struct StreamV {
    pub index: usize,
    pub data: Seq<char>,
    pub location: LocationV,
}

impl View for Stream {
    type V = StreamV;

    closed spec fn view(&self) -> StreamV {
        StreamV { index: self.index, data: self.data@, location: self.location@ }
    }
}

/// The character at position `i` of `data` together with `loc`, if there is one.
pub open spec fn char_at(data: Seq<char>, i: int, loc: LocationV) -> Option<(char, LocationV)> {
    if 0 <= i < data.len() {
        Some((data[i], loc))
    } else {
        None
    }
}

impl Stream {
    pub fn new(data: String, file_name: String) -> (s: Self)
        ensures
            s@.index == 0,
            s@.data == data@,
            s@.location == (LocationV { name: file_name@, col: 1, row: 1 }),
    {
        Self { index: 0, data: data.clone(), location: FileLocation::from_name(file_name.as_str()) }
    }

    /// The character after the current one, with the current location.
    pub fn peek(&self) -> (r: Option<(char, FileLocation)>)
        requires
            self@.index < usize::MAX,
        ensures
            match r {
                Some((c, l)) => char_at(self@.data, self@.index + 1, self@.location) == Some(
                    (c, l@),
                ),
                None => char_at(self@.data, self@.index + 1, self@.location) is None,
            },
    {
        let n = self.data.as_str().unicode_len();
        if self.index + 1 >= n {
            None
        } else {
            let c = self.data.as_str().get_char(self.index + 1);
            Some((c, self.location.clone()))
        }
    }

    /// The current character, with the current location.
    pub fn current(&self) -> (r: Option<(char, FileLocation)>)
        ensures
            match r {
                Some((c, l)) => char_at(self@.data, self@.index as int, self@.location) == Some(
                    (c, l@),
                ),
                None => char_at(self@.data, self@.index as int, self@.location) is None,
            },
    {
        let n = self.data.as_str().unicode_len();
        if self.index >= n {
            None
        } else {
            let c = self.data.as_str().get_char(self.index);
            Some((c, self.location.clone()))
        }
    }

    /// Moves to the next character; the location advances past that character
    /// when there is one. Returns whether there is one.
    pub fn consume(&mut self) -> (r: bool)
        requires
            old(self)@.index < usize::MAX,
            old(self)@.location.col < usize::MAX,
            old(self)@.location.row < usize::MAX,
        ensures
            final(self)@.index == old(self)@.index + 1,
            final(self)@.data == old(self)@.data,
            r == (old(self)@.index + 1 < old(self)@.data.len()),
            r ==> final(self)@.location == location_after(
                old(self)@.location,
                old(self)@.data[old(self)@.index + 1],
            ),
            !r ==> final(self)@.location == old(self)@.location,
    {
        self.index = self.index + 1;
        match self.current() {
            Some(value) => {
                self.location.consume_char(value.0);
                true
            },
            None => false,
        }
    }

    pub fn current_location(&self) -> (l: FileLocation)
        ensures
            l@ == self@.location,
    {
        self.location.clone()
    }

    /// Whether the next character is `c`.
    pub fn check_next(&self, c: char) -> (r: bool)
        requires
            self@.index < usize::MAX,
        ensures
            r == (self@.index + 1 < self@.data.len() && self@.data[self@.index + 1] == c),
    {
        match self.peek() {
            Some(v) => v.0 == c,
            None => false,
        }
    }

    /// Whether the next character is one of `v`.
    pub fn check_next_vec(&self, v: Vec<char>) -> (r: bool)
        requires
            self@.index < usize::MAX,
        ensures
            r == (self@.index + 1 < self@.data.len() && v@.contains(self@.data[self@.index + 1])),
    {
        match self.peek() {
            Some(c) => {
                let mut i: usize = 0;
                while i < v.len()
                    invariant
                        i <= v.len(),
                        forall|j: int| 0 <= j < i ==> v@[j] != c.0,
                        self@.index + 1 < self@.data.len(),
                        c.0 == self@.data[self@.index + 1],
                    decreases v.len() - i,
                {
                    if v[i] == c.0 {
                        assert(v@[i as int] == c.0);
                        return true;
                    }
                    i = i + 1;
                }
                false
            },
            None => false,
        }
    }
}

} // verus!
