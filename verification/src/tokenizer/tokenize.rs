//! Splitting source text into tokens.
use vstd::prelude::*;
use super::stream::{FileLocation, LocationV, Stream, StreamV, location_after};
use super::token::{Token, TokenV};
use crate::text::push_char;

verus! {

/// The state of the tokenizer between two characters.
pub struct TokenizerV {
    pub source: StreamV,
    pub current: Seq<char>,
    pub pos: LocationV,
    pub tokens: Seq<TokenV>,
}

struct Tokenizer {
    current_data: String,
    source: Stream,
    pos: FileLocation,
    tokens: Vec<Token>,
}

impl View for Tokenizer {
    type V = TokenizerV;

    closed spec fn view(&self) -> TokenizerV {
        TokenizerV {
            source: self.source@,
            current: self.current_data@,
            pos: self.pos@,
            tokens: self.tokens@.map_values(|t: Token| t@),
        }
    }
}

/// The stream after moving to the next character.
pub open spec fn stream_advance(s: StreamV) -> StreamV {
    StreamV {
        index: (s.index + 1) as usize,
        data: s.data,
        location: if s.index + 1 < s.data.len() {
            location_after(s.location, s.data[s.index + 1])
        } else {
            s.location
        },
    }
}

/// Whether the character after the cursor is `c`.
pub open spec fn next_is(s: StreamV, c: char) -> bool {
    s.index + 1 < s.data.len() && s.data[s.index + 1] == c
}

/// Ends the token being built (if it has any characters) and starts the next
/// one at the current location.
pub open spec fn t_push_current(t: TokenizerV) -> TokenizerV {
    TokenizerV {
        source: t.source,
        current: if t.current.len() != 0 { Seq::empty() } else { t.current },
        pos: t.source.location,
        tokens: if t.current.len() != 0 {
            t.tokens.push(TokenV { location: t.pos, data: t.current })
        } else {
            t.tokens
        },
    }
}

pub open spec fn t_push_char(t: TokenizerV, c: char) -> TokenizerV {
    TokenizerV { current: t.current.push(c), ..t }
}

pub open spec fn t_move_back(t: TokenizerV) -> TokenizerV {
    TokenizerV { pos: LocationV { col: (t.pos.col - 1) as usize, ..t.pos }, ..t }
}

pub open spec fn t_source_consume(t: TokenizerV) -> TokenizerV {
    TokenizerV { source: stream_advance(t.source), ..t }
}

/// Moves to the next character; an empty token being built restarts there.
pub open spec fn t_consume(t: TokenizerV) -> TokenizerV {
    let t1 = t_source_consume(t);
    if t1.current.len() == 0 {
        TokenizerV { pos: t1.source.location, ..t1 }
    } else {
        t1
    }
}

/// The character under the cursor.
pub open spec fn t_cur(t: TokenizerV) -> char {
    t.source.data[t.source.index as int]
}

/// A single-character token `c`.
pub open spec fn t_single(t: TokenizerV, c: char) -> TokenizerV {
    t_push_current(t_move_back(t_push_char(t_push_current(t), c)))
}

/// An operator character that may be doubled or followed by `=`:
/// `+ - & | < > =`.
pub open spec fn is_combining_char(c: char) -> bool {
    c == '+' || c == '-' || c == '&' || c == '|' || c == '<' || c == '>' || c == '='
}

/// An operator character that may be followed by `=`: `* % ^ !`.
pub open spec fn is_assigning_char(c: char) -> bool {
    c == '*' || c == '%' || c == '^' || c == '!'
}

/// A character that is always a token of its own.
pub open spec fn is_single_char(c: char) -> bool {
    c == '{' || c == '}' || c == '(' || c == ')' || c == '[' || c == ']' || c == ';' || c == ','
        || c == ':' || c == '.' || c == '?' || c == '~'
}

/// Handling of an operator `c` of the `+ - & | < > =` kind.
pub open spec fn t_combining(t: TokenizerV, c: char) -> TokenizerV {
    let t0 = t_push_current(t);
    if next_is(t0.source, c) || next_is(t0.source, '=') || (c == '-' && next_is(t0.source, '>')) {
        let t1 = t_source_consume(t_move_back(t_push_char(t0, c)));
        let t2 = t_push_char(t1, t_cur(t1));
        let t3 = if (c == '<' || c == '>') && next_is(t2.source, '=') {
            let t4 = t_source_consume(t2);
            t_push_char(t4, t_cur(t4))
        } else {
            t2
        };
        t_push_current(t3)
    } else {
        t_push_current(t_push_char(t_move_back(t0), c))
    }
}

/// Handling of an operator `c` that may be followed by `=`.
pub open spec fn t_assigning(t: TokenizerV, c: char) -> TokenizerV {
    let t0 = t_push_current(t);
    if next_is(t0.source, '=') {
        t_push_current(t_push_char(t_source_consume(t_move_back(t_push_char(t0, c))), '='))
    } else {
        t_push_current(t_push_char(t_move_back(t0), c))
    }
}

/// Handling of the character under the cursor outside comments; returns the
/// new state and whether a single-line and a multi-line comment start.
pub open spec fn t_plain(t: TokenizerV) -> (TokenizerV, bool, bool) {
    let c = t_cur(t);
    if c == ' ' || c == '\n' {
        (t_push_current(t), false, false)
    } else if is_single_char(c) {
        (t_single(t, c), false, false)
    } else if is_combining_char(c) {
        (t_combining(t, c), false, false)
    } else if is_assigning_char(c) {
        (t_assigning(t, c), false, false)
    } else if c == '/' {
        let t0 = t_push_current(t);
        if next_is(t0.source, '*') {
            (t_consume(t0), false, true)
        } else if next_is(t0.source, '/') {
            (t_consume(t0), true, false)
        } else {
            (t_assigning(t, c), false, false)
        }
    } else {
        (t_push_char(t, c), false, false)
    }
}

/// One step of the tokenizer on the character under the cursor, in comment
/// mode `single` (`// ...`) or `multi` (`/* ... */`).
pub open spec fn t_step(t: TokenizerV, single: bool, multi: bool) -> (TokenizerV, bool, bool) {
    let c = t_cur(t);
    let (t1, s1, m1) = if single {
        if c == '/' && next_is(t.source, '/') {
            (t_source_consume(t), false, multi)
        } else if c == '\n' {
            (t, false, multi)
        } else {
            (t, single, multi)
        }
    } else if multi {
        if c == '*' && next_is(t.source, '/') {
            (t_source_consume(t), single, false)
        } else {
            (t, single, multi)
        }
    } else {
        t_plain(t)
    };
    (t_source_consume(t1), s1, m1)
}

/// The tokenizer run from state `t` until the end of the input, and the
/// final token pushed.
pub open spec fn t_run(t: TokenizerV, single: bool, multi: bool) -> TokenizerV
    decreases t.source.data.len() - t.source.index,
{
    if t.source.index < t.source.data.len() {
        let (t1, s1, m1) = t_step(t, single, multi);
        if t1.source.index > t.source.index {
            t_run(t1, s1, m1)
        } else {
            t
        }
    } else {
        t_push_current(t)
    }
}

/// The tokenizer's starting state for `input` read from file `name`.
pub open spec fn t_init(input: Seq<char>, name: Seq<char>) -> TokenizerV {
    let loc = LocationV { name, col: 1, row: 1 };
    TokenizerV {
        source: StreamV { index: 0, data: input, location: loc },
        current: Seq::empty(),
        pos: loc,
        tokens: Seq::empty(),
    }
}

/// The tokens of `input` read from file `name`.
pub open spec fn tokens_of(input: Seq<char>, name: Seq<char>) -> Seq<TokenV> {
    t_run(t_init(input, name), false, false).tokens
}

/// The bounds that keep the tokenizer's counters in range.
pub open spec fn t_bounded(t: TokenizerV) -> bool {
    &&& t.source.data.len() + 4 < usize::MAX
    &&& t.source.index <= t.source.data.len()
    &&& 1 <= t.source.location.col <= t.source.index + 1
    &&& 1 <= t.source.location.row <= t.source.index + 1
}

/// A token text holds no space or newline and is not empty.
pub open spec fn token_shape(d: Seq<char>) -> bool {
    &&& d.len() > 0
    &&& forall|i: int| 0 <= i < d.len() ==> #[trigger] d[i] != ' ' && d[i] != '\n'
}

/// Every token text is well shaped.
pub open spec fn tokens_shaped(ts: Seq<TokenV>) -> bool {
    forall|i: int| 0 <= i < ts.len() ==> token_shape(#[trigger] ts[i].data)
}

/// The text being collected holds no space or newline.
pub open spec fn current_shaped(d: Seq<char>) -> bool {
    forall|i: int| 0 <= i < d.len() ==> #[trigger] d[i] != ' ' && d[i] != '\n'
}

impl Tokenizer {
    fn new(source: Stream) -> (t: Self)
        ensures
            t@.source == source@,
            t@.current == Seq::<char>::empty(),
            t@.pos == source@.location,
            t@.tokens == Seq::<TokenV>::empty(),
    {
        let t = Self {
            current_data: String::new(),
            pos: source.current_location(),
            source: source,
            tokens: Vec::new(),
        };
        assert(t@.tokens =~= Seq::<TokenV>::empty());
        t
    }

    fn push_current(&mut self)
        ensures
            final(self)@ == t_push_current(old(self)@),
    {
        let ghost old_tokens = self@.tokens;
        if self.current_data.as_str().unicode_len() != 0 {
            let tok = Token::new(self.pos.clone(), self.current_data.clone());
            self.tokens.push(tok);
            self.current_data = String::new();
            assert(self@.tokens =~= old_tokens.push(TokenV { location: old(self)@.pos, data: old(self)@.current }));
        }
        self.pos = self.source.current_location();
    }

    fn push_char(&mut self, c: char)
        ensures
            final(self)@ == t_push_char(old(self)@, c),
    {
        push_char(&mut self.current_data, c);
    }

    fn consume(&mut self)
        requires
            t_bounded(old(self)@),
            old(self)@.source.index < old(self)@.source.data.len(),
        ensures
            final(self)@ == t_consume(old(self)@),
    {
        self.source_consume();
        if self.current_data.as_str().unicode_len() == 0 {
            self.pos = self.source.current_location();
        }
    }

    fn source_consume(&mut self)
        requires
            t_bounded(old(self)@),
            old(self)@.source.index < old(self)@.source.data.len(),
        ensures
            final(self)@ == t_source_consume(old(self)@),
    {
        self.source.consume();
    }

    fn move_back(&mut self)
        requires
            old(self)@.pos.col >= 1,
        ensures
            final(self)@ == t_move_back(old(self)@),
    {
        self.pos.col = self.pos.col - 1;
    }
}

proof fn lemma_advance_bounded(t: TokenizerV)
    requires
        t_bounded(t),
        t.source.index < t.source.data.len(),
    ensures
        t_bounded(t_source_consume(t)),
        t_source_consume(t).source.index == t.source.index + 1,
{
}

/// Split a source text into tokens.
///
/// Spaces and newlines separate tokens; brackets, `;`, `,`, `:`, `.`, `?`
/// and `~` are tokens of their own; operators are read with a following `=`
/// or a repeated character (`++`, `<<=`, `->`, ...); `//` and `/* */`
/// comments are skipped. Each token carries the location where it starts.
pub fn tokenize(input: String, file_name: String) -> (r: Vec<Token>)
    requires
        input@.len() + 4 < usize::MAX,
    ensures
        r@.map_values(|t: Token| t@) == tokens_of(input@, file_name@),
        tokens_shaped(tokens_of(input@, file_name@)),
{
    let ghost init = t_init(input@, file_name@);
    let mut tokenizer = Tokenizer::new(Stream::new(input, file_name));
    assert(tokenizer@ == init);
    let mut single_line_comment: bool = false;
    let mut multi_line_comment: bool = false;
    loop
        invariant
            t_bounded(tokenizer@),
            t_run(tokenizer@, single_line_comment, multi_line_comment) == t_run(init, false, false),
            tokens_shaped(tokenizer@.tokens),
            current_shaped(tokenizer@.current),
            tokenizer@.pos.col >= 1,
        ensures
            t_run(tokenizer@, single_line_comment, multi_line_comment) == t_run(init, false, false),
            tokenizer@.source.index >= tokenizer@.source.data.len(),
        decreases tokenizer@.source.data.len() - tokenizer@.source.index,
    {
        let ghost before = tokenizer@;
        let ghost sl = single_line_comment;
        let ghost ml = multi_line_comment;
        match tokenizer.source.current() {
            Some(current) => {
                let c = current.0;
                if single_line_comment {
                    if c == '/' && tokenizer.source.check_next('/') {
                        tokenizer.source_consume();
                        single_line_comment = false;
                    } else if c == '\n' {
                        single_line_comment = false;
                    }
                } else if multi_line_comment {
                    if c == '*' && tokenizer.source.check_next('/') {
                        tokenizer.source_consume();
                        multi_line_comment = false;
                    }
                } else {
                    tokenize_plain(&mut tokenizer, c, &mut single_line_comment, &mut multi_line_comment);
                }
                proof {
                    lemma_advance_bounded(tokenizer@);
                }
                tokenizer.source_consume();
                assert(t_step(before, sl, ml) == (tokenizer@, single_line_comment, multi_line_comment));
            },
            None => {
                break;
            },
        }
    }
    tokenizer.push_current();
    assert(tokenizer@ == t_run(init, false, false));
    tokenizer.tokens
}

/// The handling of one character outside comments.
fn tokenize_plain(tokenizer: &mut Tokenizer, c: char, single: &mut bool, multi: &mut bool)
    requires
        t_bounded(old(tokenizer)@),
        old(tokenizer)@.source.index < old(tokenizer)@.source.data.len(),
        c == t_cur(old(tokenizer)@),
        !*old(single),
        !*old(multi),
        tokens_shaped(old(tokenizer)@.tokens),
        current_shaped(old(tokenizer)@.current),
        old(tokenizer)@.pos.col >= 1,
    ensures
        (final(tokenizer)@, *final(single), *final(multi)) == t_plain(old(tokenizer)@),
        t_bounded(final(tokenizer)@),
        final(tokenizer)@.source.index < final(tokenizer)@.source.data.len(),
        final(tokenizer)@.source.data == old(tokenizer)@.source.data,
        tokens_shaped(final(tokenizer)@.tokens),
        current_shaped(final(tokenizer)@.current),
        final(tokenizer)@.pos.col >= 1 || (final(tokenizer)@.current.len() == 0),
{
    let ghost t = tokenizer@;
    if c == ' ' || c == '\n' {
        tokenizer.push_current();
    } else if c == '{' || c == '}' || c == '(' || c == ')' || c == '[' || c == ']' || c == ';' || c
        == ',' || c == ':' || c == '.' || c == '?' || c == '~' {
        tokenizer.push_current();
        tokenizer.push_char(c);
        tokenizer.move_back();
        tokenizer.push_current();
    } else if c == '+' || c == '-' || c == '&' || c == '|' || c == '<' || c == '>' || c == '=' {
        tokenizer.push_current();
        let ghost t0 = tokenizer@;
        if tokenizer.source.check_next_vec(vec![c, '=']) || c == '-' && tokenizer.source.check_next('>') {
            proof {
                assert(seq![c, '='].contains(t_cur(t_source_consume(t0))) ==> (t_cur(t_source_consume(t0)) == c || t_cur(t_source_consume(t0)) == '='));
            }
            tokenizer.push_char(c);
            tokenizer.move_back();
            tokenizer.source_consume();
            let c2 = tokenizer.source.current().unwrap().0;
            tokenizer.push_char(c2);
            if (c == '<' || c == '>') && tokenizer.source.check_next('=') {
                tokenizer.source_consume();
                let c3 = tokenizer.source.current().unwrap().0;
                tokenizer.push_char(c3);
            }
            tokenizer.push_current();
        } else {
            tokenizer.move_back();
            tokenizer.push_char(c);
            tokenizer.push_current();
        }
    } else if c == '*' || c == '%' || c == '^' || c == '!' {
        plain_assigning(tokenizer, c);
    } else if c == '/' {
        tokenizer.push_current();
        if tokenizer.source.check_next('*') {
            tokenizer.consume();
            *multi = true;
        } else if tokenizer.source.check_next('/') {
            tokenizer.consume();
            *single = true;
        } else {
            plain_assigning(tokenizer, c);
        }
    } else {
        tokenizer.push_char(c);
    }
}

/// An operator character that may be followed by `=`.
fn plain_assigning(tokenizer: &mut Tokenizer, c: char)
    requires
        t_bounded(old(tokenizer)@),
        old(tokenizer)@.source.index < old(tokenizer)@.source.data.len(),
        c != ' ' && c != '\n',
        tokens_shaped(old(tokenizer)@.tokens),
        current_shaped(old(tokenizer)@.current),
    ensures
        final(tokenizer)@ == t_assigning(old(tokenizer)@, c),
        t_bounded(final(tokenizer)@),
        final(tokenizer)@.source.index < final(tokenizer)@.source.data.len(),
        final(tokenizer)@.source.data == old(tokenizer)@.source.data,
        tokens_shaped(final(tokenizer)@.tokens),
        current_shaped(final(tokenizer)@.current),
        final(tokenizer)@.pos.col >= 1,
{
    tokenizer.push_current();
    if tokenizer.source.check_next('=') {
        tokenizer.push_char(c);
        tokenizer.move_back();
        tokenizer.source_consume();
        tokenizer.push_char('=');
        tokenizer.push_current();
    } else {
        tokenizer.move_back();
        tokenizer.push_char(c);
        tokenizer.push_current();
    }
}

} // verus!
