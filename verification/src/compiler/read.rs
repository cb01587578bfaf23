//! The reader: source text to S-expressions.
//!
//! ```text
//! sexp    := list | vector | map | keyword | number | ident
//! list    := '(' sexp* ')'
//! vector  := '[' sexp* ']'
//! map     := '{' (sexp sexp)* '}'
//! keyword := ':' ident
//! ident   := ident-char+
//! number  := '-'? (digit+ ('.' digit*)? | '.' digit+)
//! ```
//!
//! Whitespace is Unicode whitespace and the comma. A run of the characters of
//! which numbers are made (digits, `.`, `_`, `-`) that begins with a digit or
//! a dot, or with a minus sign before one of those, must be a number.

use vstd::prelude::*;
use super::idents::{intern_index, intern_names, Ident, IdentTable};
use super::sexp::{lemma_sexp_view, sexp_pair_views, sexp_views, Sexp, SexpView};
use crate::text::{
    char_is_alphanumeric, chars_of, is_alphanumeric, is_ascii_digit, is_digit,
    is_unicode_whitespace, string_from_chars, unicode_whitespace,
};

verus! {

/// Why the text could not be read.
#[derive(Copy, Clone, Debug, PartialEq, Eq, Structural)]
pub enum ReadErrorReason {
    UnexpectedChar(char),
    /// A run of number characters that is no number; the run was interned.
    NumberParseErr(Ident),
    UnbalancedBracket,
    UnbalancedParen,
    UnbalancedBrace,
    UnbalancedMapItems,
    BareColon,
    EOF,
}

/// A failure of the reader, with the place it had reached.
#[derive(Copy, Clone, Debug, PartialEq, Eq, Structural)]
pub struct ReadError {
    pub line: usize,
    pub col: usize,
    pub reason: ReadErrorReason,
}

pub open spec fn symbol_punctuation(c: char) -> bool {
    c == '+' || c == '-' || c == '*' || c == '/' || c == '_' || c == '!' || c == '<' || c == '>'
        || c == '='
}

pub open spec fn symbol_char(c: char) -> bool {
    char_is_alphanumeric(c) || symbol_punctuation(c)
}

pub open spec fn number_start_char(c: char) -> bool {
    is_digit(c) || c == '.' || c == '-'
}

pub open spec fn number_char(c: char) -> bool {
    is_digit(c) || c == '.' || c == '_' || c == '-'
}

pub open spec fn whitespace(c: char) -> bool {
    unicode_whitespace(c) || c == ','
}

pub fn is_symbol_start_char(c: char) -> (b: bool)
    ensures
        b == symbol_char(c),
{
    is_symbol_char(c)
}

pub fn is_number_start_char(c: char) -> (b: bool)
    ensures
        b == number_start_char(c),
{
    is_ascii_digit(c) || c == '.' || c == '-'
}

pub fn is_number_char(c: char) -> (b: bool)
    ensures
        b == number_char(c),
{
    is_ascii_digit(c) || c == '.' || c == '_' || c == '-'
}

pub fn is_symbol_char(c: char) -> (b: bool)
    ensures
        b == symbol_char(c),
{
    is_alphanumeric(c) || c == '+' || c == '-' || c == '*' || c == '/' || c == '_' || c == '!'
        || c == '<' || c == '>' || c == '='
}

pub fn is_whitespace(c: char) -> (b: bool)
    ensures
        b == whitespace(c),
{
    is_unicode_whitespace(c) || c == ','
}

/// The number of digits in `text`.
pub open spec fn digit_count(text: Seq<char>) -> nat
    decreases text.len(),
{
    if text.len() == 0 {
        0
    } else {
        digit_count(text.drop_last()) + if is_digit(text.last()) {
            1nat
        } else {
            0nat
        }
    }
}

/// The number of dots in `text`.
pub open spec fn dot_count(text: Seq<char>) -> nat
    decreases text.len(),
{
    if text.len() == 0 {
        0
    } else {
        dot_count(text.drop_last()) + if text.last() == '.' {
            1nat
        } else {
            0nat
        }
    }
}

/// Digits with at most one dot among them, and at least one digit.
pub open spec fn is_unsigned_literal(text: Seq<char>) -> bool {
    &&& digit_count(text) >= 1
    &&& dot_count(text) <= 1
    &&& digit_count(text) + dot_count(text) == text.len()
}

/// A number: an unsigned literal, or a minus sign and an unsigned literal.
pub open spec fn is_number_literal(text: Seq<char>) -> bool {
    if text.len() > 0 && text[0] == '-' {
        is_unsigned_literal(text.skip(1))
    } else {
        is_unsigned_literal(text)
    }
}

/// Whether the characters `chars[from..to]` are a number.
pub fn check_number(chars: &Vec<char>, from: usize, to: usize) -> (b: bool)
    requires
        from <= to <= chars.len(),
    ensures
        b == is_number_literal(chars@.subrange(from as int, to as int)),
{
    let ghost text = chars@.subrange(from as int, to as int);
    let start = if from < to && chars[from] == '-' {
        from + 1
    } else {
        from
    };
    let ghost body = chars@.subrange(start as int, to as int);
    assert(start > from ==> body =~= text.skip(1));
    assert(start == from ==> body =~= text);
    let mut digits: usize = 0;
    let mut dots: usize = 0;
    let mut i: usize = start;
    assert(body.take(0) =~= Seq::<char>::empty());
    while i < to
        invariant
            start <= i <= to <= chars.len(),
            body == chars@.subrange(start as int, to as int),
            digits == digit_count(body.take(i - start)),
            dots == dot_count(body.take(i - start)),
            digits + dots <= i - start,
        decreases to - i,
    {
        let c = chars[i];
        assert(body.take(i + 1 - start).drop_last() =~= body.take(i - start));
        assert(body.take(i + 1 - start).last() == c);
        if is_ascii_digit(c) {
            digits += 1;
        } else if c == '.' {
            dots += 1;
        }
        i += 1;
    }
    assert(body.take(to - start) =~= body);
    digits >= 1 && dots <= 1 && digits + dots == to - start
}

/// Where the reader stands: the place in the text, the line and column of
/// that place, and the names interned so far.
pub ghost struct ReadState {
    pub pos: nat,
    pub line: nat,
    pub col: nat,
    pub names: Seq<Seq<char>>,
}

/// What a read comes to: a form or an error, and where the reader then
/// stands.
pub ghost struct ReadOutcome {
    pub result: Result<SexpView, ReadError>,
    pub state: ReadState,
}

/// The number of whitespace characters from `pos` on.
pub open spec fn ws_count(chars: Seq<char>, pos: nat) -> nat
    decreases chars.len() - pos,
{
    if pos < chars.len() && whitespace(chars[pos as int]) {
        1 + ws_count(chars, pos + 1)
    } else {
        0
    }
}

/// The number of symbol characters from `pos` on.
pub open spec fn symbol_count(chars: Seq<char>, pos: nat) -> nat
    decreases chars.len() - pos,
{
    if pos < chars.len() && symbol_char(chars[pos as int]) {
        1 + symbol_count(chars, pos + 1)
    } else {
        0
    }
}

/// The number of number characters from `pos` on.
pub open spec fn number_count(chars: Seq<char>, pos: nat) -> nat
    decreases chars.len() - pos,
{
    if pos < chars.len() && number_char(chars[pos as int]) {
        1 + number_count(chars, pos + 1)
    } else {
        0
    }
}

/// The line and column after the `n` characters from `from` on were
/// consumed: a newline begins a new line at column zero, any other character
/// moves one column on.
pub open spec fn line_col_after(chars: Seq<char>, line: nat, col: nat, from: nat, n: nat) -> (
    nat,
    nat,
)
    decreases n,
{
    if n == 0 || from >= chars.len() {
        (line, col)
    } else if chars[from as int] == '\n' {
        line_col_after(chars, line + 1, 0, from + 1, (n - 1) as nat)
    } else {
        line_col_after(chars, line, col + 1, from + 1, (n - 1) as nat)
    }
}

/// The state after `n` characters were consumed.
pub open spec fn skip(chars: Seq<char>, st: ReadState, n: nat) -> ReadState {
    ReadState {
        pos: st.pos + n,
        line: line_col_after(chars, st.line, st.col, st.pos, n).0,
        col: line_col_after(chars, st.line, st.col, st.pos, n).1,
        names: st.names,
    }
}

/// The state after the whitespace at the reader's place was consumed.
pub open spec fn skip_ws(chars: Seq<char>, st: ReadState) -> ReadState {
    skip(chars, st, ws_count(chars, st.pos))
}

pub open spec fn fail(st: ReadState, reason: ReadErrorReason) -> ReadOutcome {
    ReadOutcome {
        result: Err(ReadError { line: st.line as usize, col: st.col as usize, reason }),
        state: st,
    }
}

/// The state after the `n` characters of a token were interned.
pub open spec fn interned(chars: Seq<char>, st: ReadState, n: nat) -> ReadState {
    ReadState {
        names: intern_names(st.names, chars.subrange(st.pos as int, (st.pos + n) as int)),
        ..skip(chars, st, n)
    }
}

/// The identifier of the token of `n` characters at the reader's place.
pub open spec fn token_ident(chars: Seq<char>, st: ReadState, n: nat) -> Ident {
    Ident(intern_index(st.names, chars.subrange(st.pos as int, (st.pos + n) as int)) as usize)
}

/// A name at the reader's place; `BareColon` if no symbol character stands
/// there.
pub open spec fn read_name(chars: Seq<char>, st: ReadState, keyword: bool) -> ReadOutcome {
    let n = symbol_count(chars, st.pos);
    if n == 0 {
        fail(st, ReadErrorReason::BareColon)
    } else {
        ReadOutcome {
            result: Ok(
                if keyword {
                    SexpView::Keyword(token_ident(chars, st, n))
                } else {
                    SexpView::Ident(token_ident(chars, st, n))
                },
            ),
            state: interned(chars, st, n),
        }
    }
}

/// A number at the reader's place.
pub open spec fn read_digits(chars: Seq<char>, st: ReadState) -> ReadOutcome {
    let n = number_count(chars, st.pos);
    let after = interned(chars, st, n);
    if is_number_literal(chars.subrange(st.pos as int, (st.pos + n) as int)) {
        ReadOutcome { result: Ok(SexpView::Number(token_ident(chars, st, n))), state: after }
    } else {
        fail(after, ReadErrorReason::NumberParseErr(token_ident(chars, st, n)))
    }
}

/// Whether a number begins at `pos`: a digit or a dot, or a minus sign
/// before one of those.
pub open spec fn number_begins(chars: Seq<char>, pos: nat) -> bool {
    let c = chars[pos as int];
    is_digit(c) || c == '.' || (c == '-' && pos + 1 < chars.len() && (is_digit(
        chars[pos as int + 1],
    ) || chars[pos as int + 1] == '.'))
}

/// The kinds of bracket.
#[derive(Copy, Clone, Debug, PartialEq, Eq, Structural)]
pub enum Bracket {
    Paren,
    Square,
    Brace,
}

/// What a closing bracket means inside a form opened by `open`: the end of
/// the form if it matches, and an error of its own kind if it does not.
pub open spec fn closer(c: char) -> Option<Bracket> {
    if c == ')' {
        Some(Bracket::Paren)
    } else if c == ']' {
        Some(Bracket::Square)
    } else if c == '}' {
        Some(Bracket::Brace)
    } else {
        None
    }
}

pub open spec fn unbalanced(b: Bracket) -> ReadErrorReason {
    match b {
        Bracket::Paren => ReadErrorReason::UnbalancedParen,
        Bracket::Square => ReadErrorReason::UnbalancedBracket,
        Bracket::Brace => ReadErrorReason::UnbalancedBrace,
    }
}

/// What reading the items of a list or vector comes to.
pub ghost struct ItemsOutcome {
    pub result: Result<Seq<SexpView>, ReadError>,
    pub state: ReadState,
}

/// What reading the entries of a map comes to.
pub ghost struct PairsOutcome {
    pub result: Result<Seq<(SexpView, SexpView)>, ReadError>,
    pub state: ReadState,
}

/// The items up to the bracket that closes the form opened by `open`.
pub open spec fn read_items(chars: Seq<char>, st: ReadState, open: Bracket) -> ItemsOutcome
    decreases chars.len() - st.pos, 1nat,
{
    let s = skip_ws(chars, st);
    if s.pos >= chars.len() {
        ItemsOutcome { result: Err(fail(s, ReadErrorReason::EOF).result->Err_0), state: s }
    } else {
        let c = chars[s.pos as int];
        match closer(c) {
            Some(b) => if b == open {
                ItemsOutcome { result: Ok(Seq::empty()), state: skip(chars, s, 1) }
            } else {
                ItemsOutcome { result: Err(fail(s, unbalanced(b)).result->Err_0), state: s }
            },
            None => {
                let item = read_spec(chars, s);
                match item.result {
                    Err(e) => ItemsOutcome { result: Err(e), state: item.state },
                    Ok(x) => if item.state.pos <= s.pos || item.state.pos > chars.len() {
                        ItemsOutcome { result: Err(e_stuck()), state: item.state }
                    } else {
                        let rest = read_items(chars, item.state, open);
                        match rest.result {
                            Err(e) => rest,
                            Ok(xs) => ItemsOutcome {
                                result: Ok(seq![x] + xs),
                                state: rest.state,
                            },
                        }
                    },
                }
            },
        }
    }
}

/// The error of a read that did not move, which does not happen.
pub open spec fn e_stuck() -> ReadError {
    ReadError { line: 0, col: 0, reason: ReadErrorReason::EOF }
}

/// The entries up to the brace that closes a map.
pub open spec fn read_pairs(chars: Seq<char>, st: ReadState) -> PairsOutcome
    decreases chars.len() - st.pos, 1nat,
{
    let s = skip_ws(chars, st);
    if s.pos >= chars.len() {
        PairsOutcome { result: Err(fail(s, ReadErrorReason::EOF).result->Err_0), state: s }
    } else {
        let c = chars[s.pos as int];
        match closer(c) {
            Some(b) => if b == Bracket::Brace {
                PairsOutcome { result: Ok(Seq::empty()), state: skip(chars, s, 1) }
            } else {
                PairsOutcome { result: Err(fail(s, unbalanced(b)).result->Err_0), state: s }
            },
            None => {
                let key = read_spec(chars, s);
                match key.result {
                    Err(e) => PairsOutcome { result: Err(e), state: key.state },
                    Ok(k) => if key.state.pos <= s.pos || key.state.pos > chars.len() {
                        PairsOutcome { result: Err(e_stuck()), state: key.state }
                    } else {
                        let value = read_spec(chars, key.state);
                        match value.result {
                            Err(e) => if e.reason == ReadErrorReason::UnexpectedChar('}') {
                                PairsOutcome {
                                    result: Err(
                                        fail(
                                            value.state,
                                            ReadErrorReason::UnbalancedMapItems,
                                        ).result->Err_0,
                                    ),
                                    state: value.state,
                                }
                            } else {
                                PairsOutcome { result: Err(e), state: value.state }
                            },
                            Ok(v) => if value.state.pos <= key.state.pos || value.state.pos > chars.len() {
                                PairsOutcome { result: Err(e_stuck()), state: value.state }
                            } else {
                                let rest = read_pairs(chars, value.state);
                                match rest.result {
                                    Err(e) => rest,
                                    Ok(xs) => PairsOutcome {
                                        result: Ok(seq![(k, v)] + xs),
                                        state: rest.state,
                                    },
                                }
                            },
                        }
                    },
                }
            },
        }
    }
}

/// The form at the reader's place, after whitespace.
pub open spec fn read_spec(chars: Seq<char>, st: ReadState) -> ReadOutcome
    decreases chars.len() - st.pos, 0nat,
{
    let s = skip_ws(chars, st);
    if s.pos >= chars.len() {
        fail(s, ReadErrorReason::EOF)
    } else {
        let c = chars[s.pos as int];
        if c == '(' {
            let items = read_items(chars, skip(chars, s, 1), Bracket::Paren);
            match items.result {
                Err(e) => ReadOutcome { result: Err(e), state: items.state },
                Ok(xs) => ReadOutcome { result: Ok(SexpView::List(xs)), state: items.state },
            }
        } else if c == '[' {
            let items = read_items(chars, skip(chars, s, 1), Bracket::Square);
            match items.result {
                Err(e) => ReadOutcome { result: Err(e), state: items.state },
                Ok(xs) => ReadOutcome { result: Ok(SexpView::Vector(xs)), state: items.state },
            }
        } else if c == '{' {
            let pairs = read_pairs(chars, skip(chars, s, 1));
            match pairs.result {
                Err(e) => ReadOutcome { result: Err(e), state: pairs.state },
                Ok(xs) => ReadOutcome { result: Ok(SexpView::MapLit(xs)), state: pairs.state },
            }
        } else if c == ':' {
            let s1 = skip(chars, s, 1);
            if s1.pos >= chars.len() {
                fail(s1, ReadErrorReason::EOF)
            } else {
                read_name(chars, s1, true)
            }
        } else if number_begins(chars, s.pos) {
            read_digits(chars, s)
        } else if symbol_char(c) {
            read_name(chars, s, false)
        } else {
            fail(s, ReadErrorReason::UnexpectedChar(c))
        }
    }
}

/// Consuming `a + b` characters is consuming `a` and then `b`.
pub proof fn lemma_skip_split(chars: Seq<char>, st: ReadState, a: nat, b: nat)
    requires
        st.pos + a + b <= chars.len(),
    ensures
        skip(chars, skip(chars, st, a), b) == skip(chars, st, a + b),
    decreases a,
{
    reveal_with_fuel(line_col_after, 3);
    if a > 0 {
        let next = skip(chars, st, 1);
        lemma_skip_split(chars, next, (a - 1) as nat, b);
        assert(skip(chars, next, (a - 1) as nat) == skip(chars, st, a));
        assert(skip(chars, next, (a - 1 + b) as nat) == skip(chars, st, a + b));
    } else {
        assert(skip(chars, st, 0) == st);
    }
}

/// The items read so far in front of those still to be read.
pub open spec fn prepend(acc: Seq<SexpView>, o: ItemsOutcome) -> ItemsOutcome {
    ItemsOutcome {
        result: match o.result {
            Ok(xs) => Ok(acc + xs),
            Err(e) => Err(e),
        },
        state: o.state,
    }
}

pub open spec fn prepend_pairs(acc: Seq<(SexpView, SexpView)>, o: PairsOutcome) -> PairsOutcome {
    PairsOutcome {
        result: match o.result {
            Ok(xs) => Ok(acc + xs),
            Err(e) => Err(e),
        },
        state: o.state,
    }
}

/// An item moves from the front of what is to be read to the end of what
/// was read.
pub proof fn lemma_prepend(acc: Seq<SexpView>, x: SexpView, o: ItemsOutcome)
    ensures
        prepend(acc, prepend(seq![x], o)) == prepend(acc.push(x), o),
{
    match o.result {
        Ok(xs) => {
            assert(acc + (seq![x] + xs) =~= acc.push(x) + xs);
        },
        Err(e) => {},
    }
}

pub proof fn lemma_prepend_pairs(
    acc: Seq<(SexpView, SexpView)>,
    x: (SexpView, SexpView),
    o: PairsOutcome,
)
    ensures
        prepend_pairs(acc, prepend_pairs(seq![x], o)) == prepend_pairs(acc.push(x), o),
{
    match o.result {
        Ok(xs) => {
            assert(acc + (seq![x] + xs) =~= acc.push(x) + xs);
        },
        Err(e) => {},
    }
}

/// What a read returns, seen through the view of the form.
pub open spec fn read_result(r: Result<Sexp, ReadError>) -> Result<SexpView, ReadError> {
    match r {
        Ok(x) => Ok(x@),
        Err(e) => Err(e),
    }
}

/// The reader: the characters of the source, and the place reached in them.
pub struct Reader {
    chars: Vec<char>,
    pos: usize,
    line: usize,
    col: usize,
}

impl Reader {
    /// The characters of the source.
    pub closed spec fn chars(&self) -> Seq<char> {
        self.chars@
    }

    /// Where the reader stands, given the names interned so far.
    pub closed spec fn state(&self, names: Seq<Seq<char>>) -> ReadState {
        ReadState { pos: self.pos as nat, line: self.line as nat, col: self.col as nat, names }
    }

    /// The number of characters consumed.
    pub closed spec fn position(&self) -> nat {
        self.pos as nat
    }

    /// The invariant of the reader.
    pub closed spec fn wf(&self) -> bool {
        &&& self.pos <= self.chars.len()
        &&& self.line <= self.pos
        &&& self.col <= self.pos
    }

    /// A reader at the beginning of `src`.
    pub fn new(src: &str) -> (reader: Reader)
        ensures
            reader.wf(),
            reader.chars() == src@,
            forall|names: Seq<Seq<char>>|
                reader.state(names) == (ReadState { pos: 0, line: 0, col: 0, names }),
    {
        Reader { chars: chars_of(src), pos: 0, line: 0, col: 0 }
    }

    /// An error at the place reached.
    fn error(&self, reason: ReadErrorReason) -> (e: ReadError)
        ensures
            forall|names: Seq<Seq<char>>|
                Err::<SexpView, ReadError>(e) == fail(self.state(names), reason).result,
    {
        let (line, col) = self.location();
        ReadError { line, col, reason }
    }

    /// The character at the place reached.
    fn peek(&self) -> (r: Option<char>)
        requires
            self.wf(),
        ensures
            r == (if self.pos < self.chars().len() {
                Some(self.chars()[self.pos as int])
            } else {
                None
            }),
    {
        if self.pos < self.chars.len() {
            Some(self.chars[self.pos])
        } else {
            None
        }
    }

    /// Consumes the character at the place reached.
    fn next(&mut self) -> (r: Option<char>)
        requires
            old(self).wf(),
        ensures
            final(self).wf(),
            final(self).chars() == old(self).chars(),
            r == old(self).peek_spec(),
            final(self).pos == (if old(self).pos < old(self).chars().len() {
                old(self).pos + 1
            } else {
                old(self).pos as int
            }),
            forall|names: Seq<Seq<char>>|
                final(self).state(names) == (if old(self).pos < old(self).chars().len() {
                    skip(old(self).chars(), old(self).state(names), 1)
                } else {
                    old(self).state(names)
                }),
    {
        if self.pos >= self.chars.len() {
            return None;
        }
        let c = self.chars[self.pos];
        if c == '\n' {
            self.line = self.line + 1;
            self.col = 0;
        } else {
            self.col = self.col + 1;
        }
        self.pos = self.pos + 1;
        proof {
            assert forall|names: Seq<Seq<char>>|
                self.state(names) == skip(old(self).chars(), old(self).state(names), 1) by {
                let st = old(self).state(names);
                let chars = old(self).chars();
                let step = if chars[st.pos as int] == '\n' {
                    line_col_after(chars, st.line + 1, 0, st.pos + 1, 0)
                } else {
                    line_col_after(chars, st.line, st.col + 1, st.pos + 1, 0)
                };
                assert(line_col_after(chars, st.line, st.col, st.pos, 1) == step);
            }
        }
        Some(c)
    }

    pub closed spec fn peek_spec(&self) -> Option<char> {
        if self.pos < self.chars@.len() {
            Some(self.chars@[self.pos as int])
        } else {
            None
        }
    }

    /// Line and column of the place reached.
    fn location(&self) -> (r: (usize, usize))
        ensures
            r == (self.line, self.col),
    {
        (self.line, self.col)
    }

    /// Consumes the whitespace at the place reached.
    fn trim_whitespace(&mut self)
        requires
            old(self).wf(),
        ensures
            final(self).wf(),
            final(self).chars() == old(self).chars(),
            final(self).pos >= old(self).pos,
            forall|names: Seq<Seq<char>>|
                final(self).state(names) == skip_ws(old(self).chars(), old(self).state(names)),
            final(self).pos < final(self).chars().len() ==> !whitespace(
                final(self).chars()[final(self).pos as int],
            ),
    {
        let ghost chars = self.chars@;
        let ghost origin = self.pos as nat;
        while self.pos < self.chars.len() && is_whitespace(self.chars[self.pos])
            invariant
                self.wf(),
                self.chars@ == chars,
                old(self).chars@ == chars,
                origin == old(self).pos,
                origin <= self.pos,
                ws_count(chars, origin) == (self.pos - origin) + ws_count(chars, self.pos as nat),
                forall|names: Seq<Seq<char>>|
                    self.state(names) == skip(
                        chars,
                        old(self).state(names),
                        (self.pos - origin) as nat,
                    ),
            decreases self.chars.len() - self.pos,
        {
            let ghost k = (self.pos - origin) as nat;
            let ghost before = *self;
            self.next();
            proof {
                assert forall|names: Seq<Seq<char>>|
                    self.state(names) == skip(chars, old(self).state(names), k + 1) by {
                    lemma_skip_split(chars, old(self).state(names), k, 1);
                    assert(before.state(names) == skip(chars, old(self).state(names), k));
                }
            }
        }
    }

    /// Consumes the characters of a class from the place reached on, and
    /// returns how many there were.
    fn scan(&mut self, numbers: bool) -> (n: usize)
        requires
            old(self).wf(),
        ensures
            final(self).wf(),
            final(self).chars() == old(self).chars(),
            final(self).pos == old(self).pos + n,
            n == (if numbers {
                number_count(old(self).chars(), old(self).pos as nat)
            } else {
                symbol_count(old(self).chars(), old(self).pos as nat)
            }),
            forall|names: Seq<Seq<char>>|
                final(self).state(names) == skip(
                    old(self).chars(),
                    old(self).state(names),
                    n as nat,
                ),
    {
        let ghost chars = self.chars@;
        let ghost origin = self.pos as nat;
        let start = self.pos;
        assert forall|names: Seq<Seq<char>>|
            self.state(names) == skip(chars, old(self).state(names), 0) by {}
        loop
            invariant
                self.wf(),
                self.chars@ == chars,
                old(self).chars@ == chars,
                origin == old(self).pos,
                start == origin,
                origin <= self.pos,
                numbers ==> number_count(chars, origin) == (self.pos - origin) + number_count(
                    chars,
                    self.pos as nat,
                ),
                !numbers ==> symbol_count(chars, origin) == (self.pos - origin) + symbol_count(
                    chars,
                    self.pos as nat,
                ),
                forall|names: Seq<Seq<char>>|
                    self.state(names) == skip(
                        chars,
                        old(self).state(names),
                        (self.pos - origin) as nat,
                    ),
            ensures
                numbers ==> number_count(chars, self.pos as nat) == 0,
                !numbers ==> symbol_count(chars, self.pos as nat) == 0,
            decreases self.chars.len() - self.pos,
        {
            if self.pos >= self.chars.len() {
                break ;
            }
            let c = self.chars[self.pos];
            let more = if numbers {
                is_number_char(c)
            } else {
                is_symbol_char(c)
            };
            if !more {
                break ;
            }
            let ghost k = (self.pos - origin) as nat;
            let ghost before = *self;
            self.next();
            proof {
                assert forall|names: Seq<Seq<char>>|
                    self.state(names) == skip(chars, old(self).state(names), k + 1) by {
                    lemma_skip_split(chars, old(self).state(names), k, 1);
                    assert(before.state(names) == skip(chars, old(self).state(names), k));
                }
            }
        }
        self.pos - start
    }

    /// Interns the characters from `start` up to the place reached.
    fn intern_token(&self, start: usize, idents: &mut IdentTable) -> (id: Ident)
        requires
            self.wf(),
            start <= self.pos,
            old(idents).wf(),
        ensures
            final(idents).wf(),
            final(idents)@ == intern_names(
                old(idents)@,
                self.chars().subrange(start as int, self.pos as int),
            ),
            id.0 == intern_index(
                old(idents)@,
                self.chars().subrange(start as int, self.pos as int),
            ),
    {
        let text = string_from_chars(
            vstd::slice::slice_subrange(self.chars.as_slice(), start, self.pos),
        );
        idents.intern(text.as_str())
    }

    /// A name at the place reached.
    fn read_symbol(&mut self, keyword: bool, idents: &mut IdentTable) -> (r: Result<
        Sexp,
        ReadError,
    >)
        requires
            old(self).wf(),
            old(idents).wf(),
        ensures
            final(self).wf(),
            final(idents).wf(),
            final(self).chars() == old(self).chars(),
            (ReadOutcome {
                result: read_result(r),
                state: final(self).state(final(idents)@),
            }) == read_name(old(self).chars(), old(self).state(old(idents)@), keyword),
            r is Ok ==> final(self).pos > old(self).pos,
            final(self).pos >= old(self).pos,
    {
        let start = self.pos;
        let n = self.scan(false);
        if n == 0 {
            return Err(self.error(ReadErrorReason::BareColon));
        }
        let id = self.intern_token(start, idents);
        if keyword {
            Ok(Sexp::Keyword(id))
        } else {
            Ok(Sexp::Ident(id))
        }
    }

    /// A number at the place reached.
    fn read_number(&mut self, idents: &mut IdentTable) -> (r: Result<Sexp, ReadError>)
        requires
            old(self).wf(),
            old(idents).wf(),
            old(self).pos < old(self).chars().len(),
            number_char(old(self).chars()[old(self).pos as int]),
        ensures
            final(self).wf(),
            final(idents).wf(),
            final(self).chars() == old(self).chars(),
            (ReadOutcome {
                result: read_result(r),
                state: final(self).state(final(idents)@),
            }) == read_digits(old(self).chars(), old(self).state(old(idents)@)),
            r is Ok ==> final(self).pos > old(self).pos,
            final(self).pos >= old(self).pos,
    {
        let start = self.pos;
        self.scan(true);
        let valid = check_number(&self.chars, start, self.pos);
        let id = self.intern_token(start, idents);
        if valid {
            Ok(Sexp::Number(id))
        } else {
            Err(self.error(ReadErrorReason::NumberParseErr(id)))
        }
    }

    /// Reads the form at the place reached, after whitespace. The names and
    /// the digits of numbers in it are interned in `idents`.
    pub fn read(&mut self, idents: &mut IdentTable) -> (r: Result<Sexp, ReadError>)
        requires
            old(self).wf(),
            old(idents).wf(),
        ensures
            final(self).wf(),
            final(idents).wf(),
            final(self).chars() == old(self).chars(),
            (ReadOutcome {
                result: read_result(r),
                state: final(self).state(final(idents)@),
            }) == read_spec(old(self).chars(), old(self).state(old(idents)@)),
            r is Ok ==> final(self).position() > old(self).position(),
            final(self).position() >= old(self).position(),
        decreases old(self).chars().len() - old(self).position(), 0nat,
    {
        self.trim_whitespace();
        let c = match self.peek() {
            None => {
                return Err(self.error(ReadErrorReason::EOF));
            },
            Some(c) => c,
        };
        if c == '(' {
            self.next();
            let items = self.read_items(Bracket::Paren, idents)?;
            let form = Sexp::List(items);
            proof {
                lemma_sexp_view(&form);
            }
            Ok(form)
        } else if c == '[' {
            self.next();
            let items = self.read_items(Bracket::Square, idents)?;
            let form = Sexp::Vector(items);
            proof {
                lemma_sexp_view(&form);
            }
            Ok(form)
        } else if c == '{' {
            self.next();
            let pairs = self.read_map_items(idents)?;
            let form = Sexp::MapLit(pairs);
            proof {
                lemma_sexp_view(&form);
            }
            Ok(form)
        } else if c == ':' {
            self.next();
            if self.peek().is_none() {
                return Err(self.error(ReadErrorReason::EOF));
            }
            self.read_symbol(true, idents)
        } else if self.number_begins() {
            self.read_number(idents)
        } else if is_symbol_start_char(c) {
            self.read_symbol(false, idents)
        } else {
            Err(self.error(ReadErrorReason::UnexpectedChar(c)))
        }
    }

    /// Whether a number begins at the place reached.
    fn number_begins(&self) -> (b: bool)
        requires
            self.wf(),
            self.pos < self.chars().len(),
        ensures
            b == number_begins(self.chars(), self.pos as nat),
            b ==> number_char(self.chars()[self.pos as int]),
    {
        let c = self.chars[self.pos];
        if is_ascii_digit(c) || c == '.' {
            true
        } else if c == '-' && self.pos + 1 < self.chars.len() {
            let d = self.chars[self.pos + 1];
            is_ascii_digit(d) || d == '.'
        } else {
            false
        }
    }

    /// Reads the items of a list or vector up to its closing bracket.
    fn read_items(&mut self, open: Bracket, idents: &mut IdentTable) -> (r: Result<
        Vec<Sexp>,
        ReadError,
    >)
        requires
            old(self).wf(),
            old(idents).wf(),
        ensures
            final(self).wf(),
            final(idents).wf(),
            final(self).chars() == old(self).chars(),
            final(self).pos >= old(self).pos,
            (ItemsOutcome {
                result: match r {
                    Ok(items) => Ok(sexp_views(items@)),
                    Err(e) => Err(e),
                },
                state: final(self).state(final(idents)@),
            }) == read_items(old(self).chars(), old(self).state(old(idents)@), open),
        decreases old(self).chars().len() - old(self).pos, 1nat,
    {
        let ghost chars = self.chars();
        let ghost st0 = self.state(idents@);
        let mut items: Vec<Sexp> = Vec::new();
        assert(sexp_views(items@) =~= Seq::<SexpView>::empty());
        proof {
            let o = read_items(chars, st0, open);
            match o.result {
                Ok(xs) => {
                    assert(Seq::<SexpView>::empty() + xs =~= xs);
                },
                Err(e) => {},
            }
        }
        loop
            invariant
                self.wf(),
                idents.wf(),
                self.chars() == chars,
                old(self).chars() == chars,
                st0 == old(self).state(old(idents)@),
                self.pos >= old(self).pos,
                read_items(chars, st0, open) == prepend(
                    sexp_views(items@),
                    read_items(chars, self.state(idents@), open),
                ),
            decreases self.chars().len() - self.pos,
        {
            let ghost cur = self.state(idents@);
            let ghost acc = sexp_views(items@);
            self.trim_whitespace();
            let c = match self.peek() {
                None => {
                    return Err(self.error(ReadErrorReason::EOF));
                },
                Some(c) => c,
            };
            let close = if c == ')' {
                Some(Bracket::Paren)
            } else if c == ']' {
                Some(Bracket::Square)
            } else if c == '}' {
                Some(Bracket::Brace)
            } else {
                None
            };
            match close {
                Some(b) => {
                    if b == open {
                        self.next();
                        proof {
                            assert(acc + Seq::<SexpView>::empty() =~= acc);
                        }
                        return Ok(items);
                    }
                    let reason = match b {
                        Bracket::Paren => ReadErrorReason::UnbalancedParen,
                        Bracket::Square => ReadErrorReason::UnbalancedBracket,
                        Bracket::Brace => ReadErrorReason::UnbalancedBrace,
                    };
                    return Err(self.error(reason));
                },
                None => {},
            }
            let item = self.read(idents)?;
            proof {
                let rest = read_items(chars, self.state(idents@), open);
                assert(read_items(chars, cur, open) == prepend(seq![item@], rest));
                lemma_prepend(acc, item@, rest);
            }
            let ghost x = item@;
            items.push(item);
            assert(sexp_views(items@) =~= acc.push(x));
        }
    }

    /// Reads the entries of a map up to its closing brace.
    fn read_map_items(&mut self, idents: &mut IdentTable) -> (r: Result<
        Vec<(Sexp, Sexp)>,
        ReadError,
    >)
        requires
            old(self).wf(),
            old(idents).wf(),
        ensures
            final(self).wf(),
            final(idents).wf(),
            final(self).chars() == old(self).chars(),
            final(self).pos >= old(self).pos,
            (PairsOutcome {
                result: match r {
                    Ok(items) => Ok(sexp_pair_views(items@)),
                    Err(e) => Err(e),
                },
                state: final(self).state(final(idents)@),
            }) == read_pairs(old(self).chars(), old(self).state(old(idents)@)),
        decreases old(self).chars().len() - old(self).pos, 1nat,
    {
        let ghost chars = self.chars();
        let ghost st0 = self.state(idents@);
        let mut items: Vec<(Sexp, Sexp)> = Vec::new();
        assert(sexp_pair_views(items@) =~= Seq::<(SexpView, SexpView)>::empty());
        proof {
            let o = read_pairs(chars, st0);
            match o.result {
                Ok(xs) => {
                    assert(Seq::<(SexpView, SexpView)>::empty() + xs =~= xs);
                },
                Err(e) => {},
            }
        }
        loop
            invariant
                self.wf(),
                idents.wf(),
                self.chars() == chars,
                old(self).chars() == chars,
                st0 == old(self).state(old(idents)@),
                self.pos >= old(self).pos,
                read_pairs(chars, st0) == prepend_pairs(
                    sexp_pair_views(items@),
                    read_pairs(chars, self.state(idents@)),
                ),
            decreases self.chars().len() - self.pos,
        {
            let ghost cur = self.state(idents@);
            let ghost acc = sexp_pair_views(items@);
            self.trim_whitespace();
            let c = match self.peek() {
                None => {
                    return Err(self.error(ReadErrorReason::EOF));
                },
                Some(c) => c,
            };
            if c == '}' {
                self.next();
                proof {
                    assert(acc + Seq::<(SexpView, SexpView)>::empty() =~= acc);
                }
                return Ok(items);
            }
            if c == ')' {
                return Err(self.error(ReadErrorReason::UnbalancedParen));
            }
            if c == ']' {
                return Err(self.error(ReadErrorReason::UnbalancedBracket));
            }
            let key = self.read(idents)?;
            let value = match self.read(idents) {
                Ok(value) => value,
                Err(e) => {
                    if let ReadErrorReason::UnexpectedChar('}') = e.reason {
                        return Err(self.error(ReadErrorReason::UnbalancedMapItems));
                    }
                    return Err(e);
                },
            };
            proof {
                let rest = read_pairs(chars, self.state(idents@));
                assert(read_pairs(chars, cur) == prepend_pairs(seq![(key@, value@)], rest));
                lemma_prepend_pairs(acc, (key@, value@), rest);
            }
            let ghost x = (key@, value@);
            items.push((key, value));
            assert(sexp_pair_views(items@) =~= acc.push(x));
        }
    }
}

} // verus!
