//! What the tokenizer keeps: punctuation stands alone, and no character of
//! the text is lost or added.
use vstd::prelude::*;
use super::token::TokenV;
use super::tokenize::{
    TokenizerV, is_assigning_char, is_combining_char, is_single_char, next_is, t_assigning, t_combining,
    t_cur, t_init, t_plain, t_push_char, t_push_current, t_run, t_single, t_step, tokens_of,
    t_source_consume, t_move_back,
};

verus! {

/// The punctuation of the language: `{ } ( ) [ ] ; , : . ? ~`.
pub open spec fn separator(c: char) -> bool {
    c == '{' || c == '}' || c == '(' || c == ')' || c == '[' || c == ']' || c == ';' || c == ',' || c
        == ':' || c == '.' || c == '?' || c == '~'
}

/// Text that holds no punctuation.
pub open spec fn no_separator(d: Seq<char>) -> bool {
    forall|i: int| 0 <= i < d.len() ==> !separator(#[trigger] d[i])
}

/// A token text of more than one character holds no punctuation.
pub open spec fn apart(d: Seq<char>) -> bool {
    d.len() > 1 ==> no_separator(d)
}

/// Every token so far keeps punctuation apart, and the text being collected
/// holds none.
pub open spec fn separated(t: TokenizerV) -> bool {
    &&& t.source.data.len() < usize::MAX
    &&& forall|i: int| 0 <= i < t.tokens.len() ==> apart(#[trigger] t.tokens[i].data)
    &&& no_separator(t.current)
}

proof fn lemma_push_current(t: TokenizerV)
    requires
        separated(t),
    ensures
        separated(t_push_current(t)),
        t_push_current(t).current.len() == 0,
{
    let r = t_push_current(t);
    assert forall|i: int| 0 <= i < r.tokens.len() implies apart(#[trigger] r.tokens[i].data) by {
        if i < t.tokens.len() {
            assert(r.tokens[i] == t.tokens[i]);
        }
    }
    assert(no_separator(r.current));
}

proof fn lemma_push_char(t: TokenizerV, c: char)
    requires
        separated(t),
        !separator(c),
    ensures
        separated(t_push_char(t, c)),
{
    let r = t_push_char(t, c);
    assert forall|i: int| 0 <= i < r.current.len() implies !separator(#[trigger] r.current[i]) by {
        if i < t.current.len() {
            assert(r.current[i] == t.current[i]);
        }
    }
}

proof fn lemma_single(t: TokenizerV, c: char)
    requires
        separated(t),
    ensures
        separated(t_single(t, c)),
{
    lemma_push_current(t);
    let t0 = t_push_current(t);
    let t1 = t_push_char(t0, c);
    assert(t1.current =~= seq![c]);
    let r = t_single(t, c);
    assert forall|i: int| 0 <= i < r.tokens.len() implies apart(#[trigger] r.tokens[i].data) by {
        if i < t0.tokens.len() {
            assert(r.tokens[i] == t0.tokens[i]);
        }
    }
    assert(no_separator(r.current));
}

proof fn lemma_combining(t: TokenizerV, c: char)
    requires
        separated(t),
        is_combining_char(c),
    ensures
        separated(t_combining(t, c)),
{
    lemma_push_current(t);
    let t0 = t_push_current(t);
    let s = t0.source;
    lemma_push_char(t0, c);
    if next_is(s, c) || next_is(s, '=') || (c == '-' && next_is(s, '>')) {
        let t1 = super::tokenize::t_source_consume(super::tokenize::t_move_back(t_push_char(t0, c)));
        assert(t_cur(t1) == s.data[s.index + 1]);
        lemma_push_char(t1, t_cur(t1));
        let t2 = t_push_char(t1, t_cur(t1));
        if (c == '<' || c == '>') && next_is(t2.source, '=') {
            let t4 = super::tokenize::t_source_consume(t2);
            assert(t_cur(t4) == '=');
            lemma_push_char(t4, t_cur(t4));
            lemma_push_current(t_push_char(t4, t_cur(t4)));
        } else {
            lemma_push_current(t2);
        }
    } else {
        lemma_push_char(super::tokenize::t_move_back(t0), c);
        lemma_push_current(t_push_char(super::tokenize::t_move_back(t0), c));
    }
}

proof fn lemma_assigning(t: TokenizerV, c: char)
    requires
        separated(t),
        !separator(c),
    ensures
        separated(t_assigning(t, c)),
{
    lemma_push_current(t);
    let t0 = t_push_current(t);
    if next_is(t0.source, '=') {
        let t1 = super::tokenize::t_source_consume(super::tokenize::t_move_back(t_push_char(t0, c)));
        lemma_push_char(t0, c);
        lemma_push_char(t1, '=');
        lemma_push_current(t_push_char(t1, '='));
    } else {
        lemma_push_char(super::tokenize::t_move_back(t0), c);
        lemma_push_current(t_push_char(super::tokenize::t_move_back(t0), c));
    }
}

proof fn lemma_step(t: TokenizerV, single: bool, multi: bool)
    requires
        separated(t),
    ensures
        separated(t_step(t, single, multi).0),
{
    let c = t_cur(t);
    if !single && !multi {
        assert(separator(c) ==> is_single_char(c));
        if c == ' ' || c == '\n' {
            lemma_push_current(t);
        } else if is_single_char(c) {
            lemma_single(t, c);
        } else if is_combining_char(c) {
            lemma_combining(t, c);
        } else if is_assigning_char(c) {
            lemma_assigning(t, c);
        } else if c == '/' {
            lemma_push_current(t);
            lemma_assigning(t, c);
        } else {
            lemma_push_char(t, c);
        }
    }
}

proof fn lemma_run(t: TokenizerV, single: bool, multi: bool)
    requires
        separated(t),
    ensures
        separated(t_run(t, single, multi)),
    decreases t.source.data.len() - t.source.index,
{
    if t.source.index < t.source.data.len() {
        lemma_step(t, single, multi);
        let (t1, s1, m1) = t_step(t, single, multi);
        if t1.source.index > t.source.index {
            lemma_run(t1, s1, m1);
        }
    } else {
        lemma_push_current(t);
    }
}

/// Punctuation is never glued to anything: every token of more than one
/// character holds none of `{ } ( ) [ ] ; , : . ? ~`.
pub proof fn law_separators_stand_alone(input: Seq<char>, name: Seq<char>)
    requires
        input.len() + 4 < usize::MAX,
    ensures
        forall|i: int|
            0 <= i < tokens_of(input, name).len() && #[trigger] tokens_of(input, name)[i].data.len() > 1
                ==> no_separator(tokens_of(input, name)[i].data),
{
    let t = t_init(input, name);
    assert(no_separator(t.current));
    lemma_run(t, false, false);
    let r = t_run(t, false, false);
    assert forall|i: int| 0 <= i < r.tokens.len() && #[trigger] r.tokens[i].data.len() > 1 implies no_separator(
        r.tokens[i].data,
    ) by {
        assert(apart(r.tokens[i].data));
    }
}

/// A character that is part of some token (not a space or a newline).
pub open spec fn shown(c: char) -> bool {
    c != ' ' && c != '\n'
}

/// The characters of `s` that are part of tokens, in order.
pub open spec fn visible(s: Seq<char>) -> Seq<char>
    decreases s.len(),
{
    if s.len() == 0 {
        Seq::empty()
    } else {
        visible(s.drop_last()) + if shown(s.last()) {
            seq![s.last()]
        } else {
            Seq::empty()
        }
    }
}

/// The texts of the tokens `ts`, one after the other.
pub open spec fn joined(ts: Seq<TokenV>) -> Seq<char>
    decreases ts.len(),
{
    if ts.len() == 0 {
        Seq::empty()
    } else {
        joined(ts.drop_last()) + ts.last().data
    }
}

/// The state has read the text up to its cursor: the tokens so far and the
/// text being collected hold exactly the characters read that are not spaces
/// or newlines.
pub open spec fn read_so_far(t: TokenizerV) -> bool {
    &&& t.source.data.len() < usize::MAX
    &&& t.source.index <= t.source.data.len()
    &&& joined(t.tokens) + t.current == visible(t.source.data.take(t.source.index as int))
}

proof fn lemma_visible_step(d: Seq<char>, i: int)
    requires
        0 <= i < d.len(),
    ensures
        visible(d.take(i + 1)) == visible(d.take(i)) + if shown(d[i]) {
            seq![d[i]]
        } else {
            Seq::empty()
        },
{
    assert(d.take(i + 1).drop_last() =~= d.take(i));
}

proof fn lemma_flush(t: TokenizerV)
    ensures
        joined(t_push_current(t).tokens) + t_push_current(t).current == joined(t.tokens) + t.current,
        t_push_current(t).current.len() == 0,
        t_push_current(t).source == t.source,
{
    let r = t_push_current(t);
    if t.current.len() != 0 {
        assert(r.tokens.drop_last() =~= t.tokens);
        assert(joined(r.tokens) == joined(t.tokens) + t.current);
        assert(joined(r.tokens) + r.current =~= joined(t.tokens) + t.current);
    } else {
        assert(joined(r.tokens) + r.current =~= joined(t.tokens) + t.current);
    }
}

proof fn lemma_add(t: TokenizerV, c: char)
    ensures
        joined(t_push_char(t, c).tokens) + t_push_char(t, c).current == (joined(t.tokens) + t.current).push(c),
{
    assert(joined(t.tokens) + t.current.push(c) =~= (joined(t.tokens) + t.current).push(c));
}

/// One step on text without `/` reads exactly the characters it passes.
proof fn lemma_read_step(t: TokenizerV)
    requires
        read_so_far(t),
        t.source.index < t.source.data.len(),
        forall|k: int| 0 <= k < t.source.data.len() ==> #[trigger] t.source.data[k] != '/',
    ensures
        read_so_far(t_step(t, false, false).0),
        !t_step(t, false, false).1,
        !t_step(t, false, false).2,
        t_step(t, false, false).0.source.index > t.source.index,
        t_step(t, false, false).0.source.data == t.source.data,
{
    let d = t.source.data;
    let i = t.source.index as int;
    let c = t_cur(t);
    let base = joined(t.tokens) + t.current;
    lemma_visible_step(d, i);
    let r = t_step(t, false, false).0;
    assert(t_step(t, false, false).0 == t_source_consume(t_plain(t).0));
    if c == ' ' || c == '\n' {
        lemma_flush(t);
        assert(joined(r.tokens) + r.current == base);
        assert(visible(d.take(i + 1)) =~= visible(d.take(i)));
        assert(r.source.index == i + 1);
    } else if is_single_char(c) {
        let t0 = t_push_current(t);
        lemma_flush(t);
        lemma_add(t0, c);
        let t1 = t_move_back(t_push_char(t0, c));
        lemma_flush(t1);
        assert(joined(r.tokens) + r.current == base.push(c));
        assert(visible(d.take(i + 1)) =~= visible(d.take(i)).push(c));
        assert(r.source.index == i + 1);
    } else if is_combining_char(c) {
        let t0 = t_push_current(t);
        lemma_flush(t);
        if next_is(t0.source, c) || next_is(t0.source, '=') || (c == '-' && next_is(t0.source, '>')) {
            lemma_add(t0, c);
            let t1 = t_source_consume(t_move_back(t_push_char(t0, c)));
            lemma_visible_step(d, i + 1);
            let c1 = t_cur(t1);
            assert(c1 == d[i + 1]);
            lemma_add(t1, c1);
            let t2 = t_push_char(t1, c1);
            if (c == '<' || c == '>') && next_is(t2.source, '=') {
                let t4 = t_source_consume(t2);
                lemma_visible_step(d, i + 2);
                assert(t_cur(t4) == d[i + 2]);
                lemma_add(t4, t_cur(t4));
                lemma_flush(t_push_char(t4, t_cur(t4)));
                assert(joined(r.tokens) + r.current == base.push(c).push(c1).push(d[i + 2]));
                assert(r.source.index == i + 3);
                assert(visible(d.take(i + 3)) =~= visible(d.take(i)).push(c).push(c1).push(d[i + 2]));
            } else {
                lemma_flush(t2);
                assert(joined(r.tokens) + r.current == base.push(c).push(c1));
                assert(r.source.index == i + 2);
                assert(visible(d.take(i + 2)) =~= visible(d.take(i)).push(c).push(c1));
            }
        } else {
            lemma_add(t_move_back(t0), c);
            lemma_flush(t_push_char(t_move_back(t0), c));
            assert(joined(r.tokens) + r.current == base.push(c));
            assert(visible(d.take(i + 1)) =~= visible(d.take(i)).push(c));
            assert(r.source.index == i + 1);
        }
    } else if is_assigning_char(c) {
        let t0 = t_push_current(t);
        lemma_flush(t);
        if next_is(t0.source, '=') {
            lemma_add(t0, c);
            let t1 = t_source_consume(t_move_back(t_push_char(t0, c)));
            lemma_visible_step(d, i + 1);
            lemma_add(t1, '=');
            lemma_flush(t_push_char(t1, '='));
            assert(joined(r.tokens) + r.current == base.push(c).push('='));
            assert(r.source.index == i + 2);
            assert(visible(d.take(i + 2)) =~= visible(d.take(i)).push(c).push('='));
        } else {
            lemma_add(t_move_back(t0), c);
            lemma_flush(t_push_char(t_move_back(t0), c));
            assert(joined(r.tokens) + r.current == base.push(c));
            assert(visible(d.take(i + 1)) =~= visible(d.take(i)).push(c));
            assert(r.source.index == i + 1);
        }
    } else {
        assert(c != '/');
        lemma_add(t, c);
        assert(joined(r.tokens) + r.current == base.push(c));
        assert(visible(d.take(i + 1)) =~= visible(d.take(i)).push(c));
        assert(r.source.index == i + 1);
    }
}

proof fn lemma_read_run(t: TokenizerV)
    requires
        read_so_far(t),
        forall|k: int| 0 <= k < t.source.data.len() ==> #[trigger] t.source.data[k] != '/',
    ensures
        joined(t_run(t, false, false).tokens) == visible(t.source.data),
    decreases t.source.data.len() - t.source.index,
{
    if t.source.index < t.source.data.len() {
        lemma_read_step(t);
        let (t1, s1, m1) = t_step(t, false, false);
        lemma_read_run(t1);
    } else {
        lemma_flush(t);
        assert(t.source.data.take(t.source.index as int) =~= t.source.data);
        assert(joined(t_push_current(t).tokens) =~= joined(t_push_current(t).tokens) + t_push_current(t).current);
    }
}

/// Nothing of a text without comments is lost or added: its tokens, one
/// after the other, are its characters without the spaces and newlines.
pub proof fn law_tokens_keep_the_text(input: Seq<char>, name: Seq<char>)
    requires
        input.len() + 4 < usize::MAX,
        forall|k: int| 0 <= k < input.len() ==> #[trigger] input[k] != '/',
    ensures
        joined(tokens_of(input, name)) == visible(input),
{
    let t = t_init(input, name);
    assert(input.take(0) =~= Seq::<char>::empty());
    assert(joined(t.tokens) + t.current =~= Seq::<char>::empty());
    lemma_read_run(t);
}

} // verus!
