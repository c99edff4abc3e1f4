//! The indentation-sensitive lexer, and the function it computes.
//!
//! The specification reads the source as a sequence of characters and walks
//! it with a small state: the position, the column, whether the current line
//! has shown a character other than blanks, and the stack of columns at
//! which the enclosing blocks start.
use vstd::prelude::*;
use vstd::string::StrSliceExecFns;
use crate::error::{Error, ErrorView};
use crate::text::{characters, slice_text};
use crate::token::{Token, TokenKind, TokenView, token_views};

verus! {

/// What the lexer carries from one token to the next.
pub struct LexState {
    /// Index of the character that comes next.
    pub pos: nat,
    /// Column of that character; a tab is four columns wide.
    pub column: nat,
    /// Whether the line has shown a character other than a space or a tab.
    pub seen_nonblank: bool,
    /// Columns at which the enclosing blocks start, the base `0` first.
    pub indents: Seq<nat>,
}

/// The state before the first character.
pub open spec fn initial_state() -> LexState {
    LexState { pos: 0, column: 0, seen_nonblank: false, indents: seq![0nat] }
}

/// The indentation stack rests on the base column and grows strictly upward.
pub open spec fn indents_ordered(indents: Seq<nat>) -> bool {
    &&& indents.len() >= 1
    &&& indents[0] == 0
    &&& forall|i: int, j: int| 0 <= i < j < indents.len() ==> indents[i] < indents[j]
}

/// Sets of characters that are read as one run.
#[derive(Clone, Copy)]
pub enum CharClass {
    /// Lower-case letters and digits: the body of a word.
    Word,
    /// Decimal digits.
    Digit,
    /// The space character.
    Space,
    /// Everything up to the end of the line.
    Comment,
}

/// A lower-case letter, which can start a word.
pub open spec fn is_lower(c: char) -> bool {
    'a' <= c && c <= 'z'
}

/// A decimal digit.
pub open spec fn is_digit(c: char) -> bool {
    '0' <= c && c <= '9'
}

/// Whether `c` belongs to `class`.
pub open spec fn in_class(c: char, class: CharClass) -> bool {
    match class {
        CharClass::Word => is_lower(c) || is_digit(c),
        CharClass::Digit => is_digit(c),
        CharClass::Space => c == ' ',
        CharClass::Comment => c != '\n',
    }
}

/// The end of the longest run of `class` characters that starts at `from`.
pub open spec fn run_end(s: Seq<char>, from: nat, class: CharClass) -> nat
    decreases s.len() - from,
{
    if from < s.len() && in_class(s[from as int], class) {
        run_end(s, from + 1, class)
    } else {
        from
    }
}

/// The keyword that `word` spells, or `Identifier`.
pub open spec fn word_kind(word: Seq<char>) -> TokenKind {
    if word == "if"@ {
        TokenKind::If
    } else if word == "elif"@ {
        TokenKind::Elif
    } else if word == "else"@ {
        TokenKind::Else
    } else if word == "print"@ {
        TokenKind::Print
    } else if word == "def"@ {
        TokenKind::Def
    } else if word == "return"@ {
        TokenKind::Return
    } else if word == "or"@ {
        TokenKind::Or
    } else if word == "and"@ {
        TokenKind::And
    } else {
        TokenKind::Identifier
    }
}

/// The character at `pos`, if the source reaches that far.
pub open spec fn char_at(s: Seq<char>, pos: nat) -> Option<char> {
    if pos < s.len() {
        Some(s[pos as int])
    } else {
        None
    }
}

/// The token for a character that is a token by itself.
pub open spec fn single_kind(c: char) -> Option<TokenKind> {
    if c == '(' {
        Some(TokenKind::ParenL)
    } else if c == ')' {
        Some(TokenKind::ParenR)
    } else if c == '+' {
        Some(TokenKind::Plus)
    } else if c == '-' {
        Some(TokenKind::Minus)
    } else if c == ':' {
        Some(TokenKind::Colon)
    } else if c == ',' {
        Some(TokenKind::Comma)
    } else if c == '*' {
        Some(TokenKind::Mult)
    } else if c == '/' {
        Some(TokenKind::Div)
    } else if c == '%' {
        Some(TokenKind::Mod)
    } else {
        None
    }
}

/// One syntactic unit: the token it yields, if any, and where it ends.
pub struct Scan {
    pub kind: Option<TokenKind>,
    pub end: nat,
}

/// The unit that starts at `pos`, or the reason why none does.
pub open spec fn scan(s: Seq<char>, pos: nat) -> Result<Scan, ErrorView>
    recommends
        pos < s.len(),
{
    let c = s[pos as int];
    let eq_follows = char_at(s, pos + 1) == Some('=');
    if is_lower(c) {
        let end = run_end(s, pos, CharClass::Word);
        Ok(Scan { kind: Some(word_kind(s.subrange(pos as int, end as int))), end })
    } else if is_digit(c) {
        Ok(Scan { kind: Some(TokenKind::Integer), end: run_end(s, pos, CharClass::Digit) })
    } else if c == '#' {
        Ok(Scan { kind: None, end: run_end(s, pos, CharClass::Comment) })
    } else if c == '\n' {
        Ok(Scan { kind: Some(TokenKind::Newline), end: pos + 1 })
    } else if c == '\\' {
        if char_at(s, pos + 1) == Some('\n') {
            Ok(Scan { kind: None, end: pos + 2 })
        } else {
            Err(ErrorView::UnpairedBackslash(char_at(s, pos + 1)))
        }
    } else if c == ' ' {
        Ok(Scan { kind: None, end: run_end(s, pos, CharClass::Space) })
    } else if c == '\t' {
        Ok(Scan { kind: None, end: pos + 1 })
    } else if single_kind(c) is Some {
        Ok(Scan { kind: single_kind(c), end: pos + 1 })
    } else if c == '<' {
        if eq_follows {
            Ok(Scan { kind: Some(TokenKind::Leq), end: pos + 2 })
        } else {
            Ok(Scan { kind: Some(TokenKind::Lt), end: pos + 1 })
        }
    } else if c == '>' {
        if eq_follows {
            Ok(Scan { kind: Some(TokenKind::Geq), end: pos + 2 })
        } else {
            Ok(Scan { kind: Some(TokenKind::Gt), end: pos + 1 })
        }
    } else if c == '=' {
        if eq_follows {
            Ok(Scan { kind: Some(TokenKind::EqEq), end: pos + 2 })
        } else {
            Err(ErrorView::UnexpectedCharacter(char_at(s, pos + 1)))
        }
    } else if c == '!' {
        if eq_follows {
            Ok(Scan { kind: Some(TokenKind::Ne), end: pos + 2 })
        } else {
            Err(ErrorView::UnexpectedCharacter(char_at(s, pos + 1)))
        }
    } else {
        Err(ErrorView::UnexpectedStartOfToken(c))
    }
}

/// The tokens that the unit `found`, which starts at `pos`, contributes.
pub open spec fn scanned_tokens(s: Seq<char>, pos: nat, found: Scan) -> Seq<TokenView> {
    match found.kind {
        Some(kind) => seq![TokenView { kind, lexeme: s.subrange(pos as int, found.end as int) }],
        None => Seq::empty(),
    }
}

/// An `Indent` or `Dedent` token emitted in front of a line that starts at `column`.
pub open spec fn dent(kind: TokenKind, column: nat) -> TokenView {
    TokenView { kind, lexeme: Seq::new(column, |i: int| ' ') }
}

/// The indentation stack after every entry above `column` has been popped.
pub open spec fn unwind(indents: Seq<nat>, column: nat) -> Seq<nat>
    decreases indents.len(),
{
    if indents.len() > 0 && indents.last() > column {
        unwind(indents.drop_last(), column)
    } else {
        indents
    }
}

/// Whether `c`, as the first character after the blanks of a line, opens a
/// logical line whose column is compared with the indentation stack.
pub open spec fn opens_line(c: char) -> bool {
    c != ' ' && c != '\t' && c != '#' && c != '\n'
}

/// The indentation tokens in front of the unit that starts with `c`, and
/// the stack after them.
pub open spec fn layout(c: char, st: LexState) -> Result<(Seq<TokenView>, Seq<nat>), ErrorView> {
    if st.seen_nonblank || !opens_line(c) || st.column == st.indents.last() {
        Ok((Seq::empty(), st.indents))
    } else if st.column > st.indents.last() {
        Ok((seq![dent(TokenKind::Indent, st.column)], st.indents.push(st.column)))
    } else {
        let kept = unwind(st.indents, st.column);
        if kept.last() == st.column {
            Ok(
                (
                    Seq::new(
                        (st.indents.len() - kept.len()) as nat,
                        |i: int| dent(TokenKind::Dedent, st.column),
                    ),
                    kept,
                ),
            )
        } else {
            Err(ErrorView::UnmatchedIndentationLevel(st.column))
        }
    }
}

/// The state after the unit that starts at `st.pos` and ends at `end`.
pub open spec fn after_unit(s: Seq<char>, st: LexState, indents: Seq<nat>, end: nat) -> LexState {
    let c = s[st.pos as int];
    LexState {
        pos: end,
        column: if c == '\n' {
            0
        } else if c == '\t' {
            st.column + 4
        } else {
            (st.column + end - st.pos) as nat
        },
        seen_nonblank: if c == '\n' {
            false
        } else if c == ' ' || c == '\t' {
            st.seen_nonblank
        } else {
            true
        },
        indents,
    }
}

/// The tokens at the end of the input: one `Dedent` for every block still
/// open, then `Eof`.
pub open spec fn closing_tokens(indents: Seq<nat>) -> Seq<TokenView> {
    Seq::new((indents.len() - 1) as nat, |i: int| TokenView { kind: TokenKind::Dedent, lexeme: Seq::empty() }).push(
        TokenView { kind: TokenKind::Eof, lexeme: Seq::empty() },
    )
}

/// `tokens` in front of what `rest` yields.
pub open spec fn preceded_by(tokens: Seq<TokenView>, rest: Result<Seq<TokenView>, ErrorView>) -> Result<
    Seq<TokenView>,
    ErrorView,
> {
    match rest {
        Ok(more) => Ok(tokens + more),
        Err(e) => Err(e),
    }
}

/// The tokens of the part of `s` that lies at and after `st.pos`.
pub open spec fn lex_from(s: Seq<char>, st: LexState) -> Result<Seq<TokenView>, ErrorView>
    decreases s.len() - st.pos,
    via lex_from_terminates
{
    if st.pos >= s.len() {
        Ok(closing_tokens(st.indents))
    } else {
        match layout(s[st.pos as int], st) {
            Err(e) => Err(e),
            Ok((dents, indents)) => match scan(s, st.pos) {
                Err(e) => Err(e),
                Ok(found) => preceded_by(
                    dents + scanned_tokens(s, st.pos, found),
                    lex_from(s, after_unit(s, st, indents, found.end)),
                ),
            },
        }
    }
}

/// Every unit is at least one character long, so the rest gets shorter.
#[via_fn]
proof fn lex_from_terminates(s: Seq<char>, st: LexState) {
    if st.pos < s.len() {
        lemma_scan_bounds(s, st.pos);
    }
}

/// The token sequence of the source `s`, or the first reason to reject it.
pub open spec fn lex(s: Seq<char>) -> Result<Seq<TokenView>, ErrorView> {
    lex_from(s, initial_state())
}

/// A run ends at or after its start and within the source, everything in it
/// belongs to the class, and the character after it does not.
pub proof fn lemma_run_end(s: Seq<char>, from: nat, class: CharClass)
    requires
        from <= s.len(),
    ensures
        from <= run_end(s, from, class) <= s.len(),
        forall|i: int| from <= i < run_end(s, from, class) ==> in_class(#[trigger] s[i], class),
        run_end(s, from, class) < s.len() ==> !in_class(s[run_end(s, from, class) as int], class),
        from < s.len() && in_class(s[from as int], class) ==> from < run_end(s, from, class),
    decreases s.len() - from,
{
    if from < s.len() && in_class(s[from as int], class) {
        lemma_run_end(s, from + 1, class);
    }
}

/// Every unit is at least one character long and ends within the source.
pub proof fn lemma_scan_bounds(s: Seq<char>, pos: nat)
    requires
        pos < s.len(),
    ensures
        scan(s, pos) matches Ok(found) ==> pos < found.end <= s.len(),
{
    lemma_run_end(s, pos, CharClass::Word);
    lemma_run_end(s, pos, CharClass::Digit);
    lemma_run_end(s, pos, CharClass::Comment);
    lemma_run_end(s, pos, CharClass::Space);
}

/// How many of `tokens` are of the given kind.
pub open spec fn count_kind(tokens: Seq<TokenView>, kind: TokenKind) -> nat
    decreases tokens.len(),
{
    if tokens.len() == 0 {
        0
    } else {
        count_kind(tokens.drop_last(), kind) + if tokens.last().kind == kind {
            1nat
        } else {
            0nat
        }
    }
}

/// Counting distributes over concatenation.
pub proof fn lemma_count_add(front: Seq<TokenView>, back: Seq<TokenView>, kind: TokenKind)
    ensures
        count_kind(front + back, kind) == count_kind(front, kind) + count_kind(back, kind),
    decreases back.len(),
{
    if back.len() == 0 {
        assert(front + back =~= front);
    } else {
        lemma_count_add(front, back.drop_last(), kind);
        assert((front + back).drop_last() =~= front + back.drop_last());
    }
}

/// Among `n` copies of one token, all or none are of the given kind.
pub proof fn lemma_count_copies(n: nat, token: TokenView, kind: TokenKind)
    ensures
        count_kind(Seq::new(n, |i: int| token), kind) == if token.kind == kind {
            n
        } else {
            0
        },
    decreases n,
{
    if n > 0 {
        lemma_count_copies((n - 1) as nat, token, kind);
        assert(Seq::new(n, |i: int| token).drop_last() =~= Seq::new((n - 1) as nat, |i: int| token));
    }
}

/// Popping the entries above a column leaves an ordered stack that is no
/// longer than before.
pub proof fn lemma_unwind(indents: Seq<nat>, column: nat)
    requires
        indents_ordered(indents),
    ensures
        indents_ordered(unwind(indents, column)),
        unwind(indents, column).len() <= indents.len(),
        unwind(indents, column).last() <= column,
    decreases indents.len(),
{
    if indents.last() > column {
        lemma_unwind(indents.drop_last(), column);
    }
}

/// The indentation stack stays ordered from one unit to the next: it
/// always rests on the base column, and every entry is greater than the
/// one beneath it.
pub proof fn lemma_layout_keeps_order(c: char, st: LexState)
    requires
        indents_ordered(st.indents),
    ensures
        layout(c, st) matches Ok((dents, indents)) ==> indents_ordered(indents),
{
    lemma_unwind(st.indents, st.column);
}

/// From any state on, the `Dedent` tokens outnumber the `Indent` tokens
/// by the number of blocks that are open in that state.
pub proof fn lemma_dents_from(s: Seq<char>, st: LexState)
    requires
        indents_ordered(st.indents),
    ensures
        lex_from(s, st) matches Ok(tokens) ==> count_kind(tokens, TokenKind::Dedent) == count_kind(
            tokens,
            TokenKind::Indent,
        ) + st.indents.len() - 1,
    decreases s.len() - st.pos,
{
    let eof = TokenView { kind: TokenKind::Eof, lexeme: Seq::empty() };
    let dedent = TokenView { kind: TokenKind::Dedent, lexeme: Seq::empty() };
    if st.pos >= s.len() {
        let open = (st.indents.len() - 1) as nat;
        let dedents = Seq::new(open, |i: int| dedent);
        assert(closing_tokens(st.indents) =~= dedents + seq![eof]);
        lemma_count_add(dedents, seq![eof], TokenKind::Dedent);
        lemma_count_add(dedents, seq![eof], TokenKind::Indent);
        lemma_count_copies(open, dedent, TokenKind::Dedent);
        lemma_count_copies(open, dedent, TokenKind::Indent);
        lemma_count_single(eof, TokenKind::Dedent);
        lemma_count_single(eof, TokenKind::Indent);
    } else {
        let c = s[st.pos as int];
        if let Ok((dents, indents)) = layout(c, st) {
            if let Ok(found) = scan(s, st.pos) {
                lemma_scan_bounds(s, st.pos);
                lemma_layout_keeps_order(c, st);
                lemma_unwind(st.indents, st.column);
                let next = after_unit(s, st, indents, found.end);
                lemma_dents_from(s, next);
                if let Ok(rest) = lex_from(s, next) {
                    let unit = scanned_tokens(s, st.pos, found);
                    lemma_count_add(dents + unit, rest, TokenKind::Dedent);
                    lemma_count_add(dents + unit, rest, TokenKind::Indent);
                    lemma_count_add(dents, unit, TokenKind::Dedent);
                    lemma_count_add(dents, unit, TokenKind::Indent);
                    if found.kind is Some {
                        lemma_count_single(unit[0], TokenKind::Dedent);
                        lemma_count_single(unit[0], TokenKind::Indent);
                        assert(unit =~= seq![unit[0]]);
                    } else {
                        assert(count_kind(unit, TokenKind::Dedent) == 0);
                        assert(count_kind(unit, TokenKind::Indent) == 0);
                    }
                    let indent = dent(TokenKind::Indent, st.column);
                    let closing = dent(TokenKind::Dedent, st.column);
                    if st.seen_nonblank || !opens_line(c) || st.column == st.indents.last() {
                        assert(count_kind(dents, TokenKind::Dedent) == 0);
                        assert(count_kind(dents, TokenKind::Indent) == 0);
                    } else if st.column > st.indents.last() {
                        lemma_count_single(indent, TokenKind::Dedent);
                        lemma_count_single(indent, TokenKind::Indent);
                    } else {
                        let n = (st.indents.len() - indents.len()) as nat;
                        lemma_count_copies(n, closing, TokenKind::Dedent);
                        lemma_count_copies(n, closing, TokenKind::Indent);
                    }
                }
            }
        }
    }
}

/// One token counts once if it is of the given kind.
pub proof fn lemma_count_single(token: TokenView, kind: TokenKind)
    ensures
        count_kind(seq![token], kind) == if token.kind == kind {
            1nat
        } else {
            0nat
        },
{
    assert(seq![token].drop_last() =~= Seq::<TokenView>::empty());
    assert(count_kind(seq![token].drop_last(), kind) == 0);
}

/// A complete token sequence holds as many `Dedent` tokens as `Indent`
/// tokens: every block that is opened is closed.
pub proof fn lemma_dedents_match_indents(s: Seq<char>)
    ensures
        lex(s) matches Ok(tokens) ==> count_kind(tokens, TokenKind::Dedent) == count_kind(
            tokens,
            TokenKind::Indent,
        ),
{
    lemma_dents_from(s, initial_state());
}

/// Every token sequence ends with `Eof`.
pub proof fn lemma_lex_ends_with_eof(s: Seq<char>, st: LexState)
    ensures
        lex_from(s, st) matches Ok(tokens) ==> tokens.len() > 0 && tokens.last().kind == TokenKind::Eof,
    decreases s.len() - st.pos,
{
    if st.pos < s.len() {
        if let Ok((dents, indents)) = layout(s[st.pos as int], st) {
            if let Ok(found) = scan(s, st.pos) {
                lemma_scan_bounds(s, st.pos);
                lemma_lex_ends_with_eof(s, after_unit(s, st, indents, found.end));
            }
        }
    }
}

/// Token values commute with appending a token.
pub proof fn lemma_token_views_push(tokens: Seq<Token>, token: Token)
    ensures
        token_views(tokens.push(token)) == token_views(tokens).push(token@),
{
    assert(token_views(tokens.push(token)) =~= token_views(tokens).push(token@));
}

/// The view of what `lex` returns.
pub open spec fn lexed_view(r: Result<Vec<Token>, Error>) -> Result<Seq<TokenView>, ErrorView> {
    match r {
        Ok(tokens) => Ok(token_views(tokens@)),
        Err(e) => Err(e@),
    }
}

/// A cursor over the characters of one source text.
pub struct Lexer {
    chars: Vec<char>,
    /// Index of the current character.
    pos: usize,
    column: u64,
    indent_stack: Vec<u64>,
    /// False until the line has shown a character other than a space or a tab.
    seen_nonblank: bool,
    /// Where the unit that is being read starts.
    start: usize,
}

impl Lexer {
    /// The text that this lexer reads.
    pub closed spec fn source(&self) -> Seq<char> {
        self.chars@
    }

    /// Where this lexer stands in its text.
    pub closed spec fn state(&self) -> LexState {
        LexState {
            pos: self.pos as nat,
            column: self.column as nat,
            seen_nonblank: self.seen_nonblank,
            indents: Seq::new(self.indent_stack@.len(), |i: int| self.indent_stack@[i] as nat),
        }
    }

    /// The cursor lies within the text, between two units, and the
    /// indentation stack is ordered.
    pub closed spec fn well_formed(&self) -> bool {
        &&& self.start == self.pos
        &&& self.inside()
    }

    /// Like `well_formed`, but possibly in the middle of a unit.
    spec fn inside(&self) -> bool {
        &&& self.start <= self.pos <= self.chars.len()
        &&& self.column <= 4 * self.pos
        &&& 4 * self.chars.len() <= u64::MAX
        &&& indents_ordered(self.state().indents)
    }

    /// Nothing has been read yet.
    pub open spec fn ready(&self) -> bool {
        self.well_formed() && self.state() == initial_state()
    }

    /// This lexer has read one whole unit since `before`, which yielded `tokens`.
    spec fn stepped(&self, before: &Lexer, tokens: Seq<TokenView>) -> bool {
        &&& self.well_formed()
        &&& self.chars == before.chars
        &&& scan(before.source(), before.pos as nat) matches Ok(found)
        &&& found.end == self.pos
        &&& tokens == scanned_tokens(before.source(), before.pos as nat, found)
        &&& self.state() == after_unit(
            before.source(),
            before.state(),
            before.state().indents,
            found.end,
        )
    }

    /// This lexer has moved `n` characters along one line since `before`.
    spec fn moved(&self, before: &Lexer, n: int) -> bool {
        &&& self.inside()
        &&& self.chars == before.chars
        &&& self.indent_stack == before.indent_stack
        &&& self.start == before.start
        &&& self.pos == before.pos + n
        &&& self.column == before.column + n
    }

    /// A lexer at the start of `text`.
    pub fn new(text: &str) -> (lexer: Lexer)
        requires
            4 * text@.len() <= u64::MAX,
        ensures
            lexer.ready(),
            lexer.source() == text@,
    {
        let chars = characters(text);
        let mut indent_stack: Vec<u64> = Vec::new();
        indent_stack.push(0);
        let lexer = Lexer { chars, pos: 0, column: 0, indent_stack, seen_nonblank: false, start: 0 };
        assert(lexer.state().indents =~= seq![0nat]);
        lexer
    }

    /// The current character, if the text is not exhausted.
    fn current(&self) -> (c: Option<char>)
        requires
            self.inside(),
        ensures
            c == char_at(self.source(), self.pos as nat),
    {
        if self.pos < self.chars.len() {
            Some(self.chars[self.pos])
        } else {
            None
        }
    }

    /// Takes the current character into the unit that is being read and
    /// returns the one after it.
    fn next(&mut self) -> (c: Option<char>)
        requires
            old(self).inside(),
            old(self).pos < old(self).chars.len(),
        ensures
            final(self).moved(old(self), 1),
            final(self).seen_nonblank == (old(self).seen_nonblank || (old(self).chars[old(self).pos as int]
                != ' ' && old(self).chars[old(self).pos as int] != '\t')),
            c == char_at(final(self).source(), final(self).pos as nat),
    {
        let taken = self.chars[self.pos];
        if taken != ' ' && taken != '\t' {
            self.seen_nonblank = true;
        }
        self.pos = self.pos + 1;
        self.column = self.column + 1;
        self.current()
    }

    /// Ends the unit that is being read, as a token of the given kind.
    fn make_token(&mut self, kind: TokenKind) -> (token: Token)
        requires
            old(self).inside(),
        ensures
            final(self).well_formed(),
            *final(self) == (Lexer { start: old(self).pos, ..*old(self) }),
            token@ == (TokenView {
                kind,
                lexeme: old(self).source().subrange(old(self).start as int, old(self).pos as int),
            }),
    {
        let lexeme = slice_text(&self.chars, self.start, self.pos);
        self.start = self.pos;
        Token { kind, lexeme }
    }

    /// Ends the unit that is being read without a token.
    fn skip_unit(&mut self)
        requires
            old(self).inside(),
        ensures
            final(self).well_formed(),
            *final(self) == (Lexer { start: old(self).pos, ..*old(self) }),
    {
        self.start = self.pos;
    }

    /// An indentation token for the line that the cursor is on.
    fn make_dent_token(&self, kind: TokenKind) -> (token: Token)
        requires
            self.inside(),
        ensures
            self.pos < self.chars.len() ==> token@ == dent(kind, self.column as nat),
            self.pos >= self.chars.len() ==> token@ == (TokenView { kind, lexeme: Seq::empty() }),
    {
        let mut lexeme = String::new();
        if self.pos < self.chars.len() {
            let mut i: u64 = 0;
            while i < self.column
                invariant
                    i <= self.column,
                    lexeme@ == Seq::new(i as nat, |j: int| ' '),
                decreases self.column - i,
            {
                lexeme.push(' ');
                i += 1;
                assert(lexeme@ =~= Seq::new(i as nat, |j: int| ' '));
            }
        }
        Token { kind, lexeme }
    }

    /// Whether `c` belongs to `class`.
    fn belongs(c: char, class: CharClass) -> (b: bool)
        ensures
            b == in_class(c, class),
    {
        match class {
            CharClass::Word => ('a' <= c && c <= 'z') || ('0' <= c && c <= '9'),
            CharClass::Digit => '0' <= c && c <= '9',
            CharClass::Space => c == ' ',
            CharClass::Comment => c != '\n',
        }
    }

    /// Takes the longest run of `class` characters into the unit that is being read.
    fn take_run(&mut self, class: CharClass)
        requires
            old(self).inside(),
            old(self).pos < old(self).chars.len(),
            in_class(old(self).chars[old(self).pos as int], class),
        ensures
            final(self).moved(
                old(self),
                run_end(old(self).source(), old(self).pos as nat, class) - old(self).pos,
            ),
            final(self).pos > old(self).pos,
            class is Space ==> final(self).seen_nonblank == old(self).seen_nonblank,
            !(class is Space) && old(self).chars[old(self).pos as int] != ' ' && old(self).chars[old(
                self,
            ).pos as int] != '\t' ==> final(self).seen_nonblank,
    {
        let ghost end = run_end(self.source(), self.pos as nat, class);
        proof {
            lemma_run_end(self.source(), self.pos as nat, class);
        }
        self.next();
        while self.pos < self.chars.len() && Self::belongs(self.chars[self.pos], class)
            invariant
                self.moved(old(self), self.pos - old(self).pos),
                old(self).pos < self.pos <= end <= self.chars.len(),
                end == run_end(self.source(), self.pos as nat, class),
                class is Space ==> self.seen_nonblank == old(self).seen_nonblank,
                !(class is Space) && old(self).chars[old(self).pos as int] != ' ' && old(self).chars[old(
                    self,
                ).pos as int] != '\t' ==> self.seen_nonblank,
            decreases self.chars.len() - self.pos,
        {
            proof {
                lemma_run_end(self.source(), (self.pos + 1) as nat, class);
            }
            self.next();
        }
    }

    /// Whether the unit that is being read spells `word`.
    fn word_is(&self, word: &str) -> (b: bool)
        requires
            self.inside(),
        ensures
            b == (self.source().subrange(self.start as int, self.pos as int) == word@),
    {
        let ghost unit = self.source().subrange(self.start as int, self.pos as int);
        let n = word.unicode_len();
        if self.pos - self.start != n {
            return false;
        }
        let mut i: usize = 0;
        while i < n
            invariant
                self.inside(),
                n == word@.len(),
                n == self.pos - self.start,
                i <= n,
                unit == self.source().subrange(self.start as int, self.pos as int),
                forall|j: int| 0 <= j < i ==> unit[j] == word@[j],
            decreases n - i,
        {
            if self.chars[self.start + i] != word.get_char(i) {
                assert(unit[i as int] != word@[i as int]);
                return false;
            }
            i += 1;
        }
        assert(unit =~= word@);
        true
    }

    /// Reads a word: a keyword if it spells one, else an identifier.
    fn lex_identifier_or_keyword(&mut self) -> (token: Token)
        requires
            old(self).well_formed(),
            old(self).pos < old(self).chars.len(),
            is_lower(old(self).chars[old(self).pos as int]),
        ensures
            final(self).stepped(old(self), seq![token@]),
    {
        self.take_run(CharClass::Word);
        let kind = if self.word_is("if") {
            TokenKind::If
        } else if self.word_is("elif") {
            TokenKind::Elif
        } else if self.word_is("else") {
            TokenKind::Else
        } else if self.word_is("print") {
            TokenKind::Print
        } else if self.word_is("def") {
            TokenKind::Def
        } else if self.word_is("return") {
            TokenKind::Return
        } else if self.word_is("or") {
            TokenKind::Or
        } else if self.word_is("and") {
            TokenKind::And
        } else {
            TokenKind::Identifier
        };
        self.make_token(kind)
    }

    /// Reads a run of digits.
    fn lex_integer(&mut self) -> (token: Token)
        requires
            old(self).well_formed(),
            old(self).pos < old(self).chars.len(),
            is_digit(old(self).chars[old(self).pos as int]),
        ensures
            final(self).stepped(old(self), seq![token@]),
    {
        self.take_run(CharClass::Digit);
        self.make_token(TokenKind::Integer)
    }

    /// Skips a comment, up to the end of the line.
    fn lex_comment(&mut self)
        requires
            old(self).well_formed(),
            old(self).pos < old(self).chars.len(),
            old(self).chars[old(self).pos as int] == '#',
        ensures
            final(self).stepped(old(self), Seq::empty()),
    {
        self.take_run(CharClass::Comment);
        self.skip_unit();
    }

    /// Reads the end of a line; the next line starts at column 0.
    fn lex_newline(&mut self) -> (token: Token)
        requires
            old(self).well_formed(),
            old(self).pos < old(self).chars.len(),
            old(self).chars[old(self).pos as int] == '\n',
        ensures
            final(self).stepped(old(self), seq![token@]),
    {
        self.next();
        self.column = 0;
        self.seen_nonblank = false;
        self.make_token(TokenKind::Newline)
    }

    /// Skips a backslash and the newline that must follow it.
    fn lex_backslash(&mut self) -> (r: Result<(), Error>)
        requires
            old(self).well_formed(),
            old(self).pos < old(self).chars.len(),
            old(self).chars[old(self).pos as int] == '\\',
        ensures
            match r {
                Ok(()) => final(self).stepped(old(self), Seq::empty()),
                Err(e) => scan(old(self).source(), old(self).pos as nat) == Err::<Scan, ErrorView>(e@),
            },
    {
        let follower = self.next();
        match follower {
            Some('\n') => {
                self.next();
                self.skip_unit();
                Ok(())
            },
            _ => Err(Error::UnpairedBackslash(follower)),
        }
    }

    /// Skips a run of spaces.
    fn lex_whitespace(&mut self)
        requires
            old(self).well_formed(),
            old(self).pos < old(self).chars.len(),
            old(self).chars[old(self).pos as int] == ' ',
        ensures
            final(self).stepped(old(self), Seq::empty()),
    {
        self.take_run(CharClass::Space);
        self.skip_unit();
    }

    /// Skips a tab, which is four columns wide.
    fn lex_tab(&mut self)
        requires
            old(self).well_formed(),
            old(self).pos < old(self).chars.len(),
            old(self).chars[old(self).pos as int] == '\t',
        ensures
            final(self).stepped(old(self), Seq::empty()),
    {
        self.next();
        self.column = self.column + 3;
        self.skip_unit();
    }

    /// Reads a token that is the current character alone.
    fn lex_symbol(&mut self, kind: TokenKind) -> (token: Token)
        requires
            old(self).well_formed(),
            old(self).pos < old(self).chars.len(),
            single_kind(old(self).chars[old(self).pos as int]) == Some(kind),
        ensures
            final(self).stepped(old(self), seq![token@]),
    {
        self.next();
        self.make_token(kind)
    }

    /// Reads `==`.
    fn lex_equals(&mut self) -> (r: Result<Token, Error>)
        requires
            old(self).well_formed(),
            old(self).pos < old(self).chars.len(),
            old(self).chars[old(self).pos as int] == '=',
        ensures
            match r {
                Ok(token) => final(self).stepped(old(self), seq![token@]),
                Err(e) => scan(old(self).source(), old(self).pos as nat) == Err::<Scan, ErrorView>(e@),
            },
    {
        let follower = self.next();
        match follower {
            Some('=') => {
                self.next();
                Ok(self.make_token(TokenKind::EqEq))
            },
            _ => Err(Error::UnexpectedCharacter(follower)),
        }
    }

    /// Reads `<=` or `<`.
    fn lex_lt(&mut self) -> (r: Result<Token, Error>)
        requires
            old(self).well_formed(),
            old(self).pos < old(self).chars.len(),
            old(self).chars[old(self).pos as int] == '<',
        ensures
            r matches Ok(token) && final(self).stepped(old(self), seq![token@]),
    {
        match self.next() {
            Some('=') => {
                self.next();
                Ok(self.make_token(TokenKind::Leq))
            },
            _ => Ok(self.make_token(TokenKind::Lt)),
        }
    }

    /// Reads `>=` or `>`.
    fn lex_gt(&mut self) -> (r: Result<Token, Error>)
        requires
            old(self).well_formed(),
            old(self).pos < old(self).chars.len(),
            old(self).chars[old(self).pos as int] == '>',
        ensures
            r matches Ok(token) && final(self).stepped(old(self), seq![token@]),
    {
        match self.next() {
            Some('=') => {
                self.next();
                Ok(self.make_token(TokenKind::Geq))
            },
            _ => Ok(self.make_token(TokenKind::Gt)),
        }
    }

    /// Reads `!=`.
    fn lex_ne(&mut self) -> (r: Result<Token, Error>)
        requires
            old(self).well_formed(),
            old(self).pos < old(self).chars.len(),
            old(self).chars[old(self).pos as int] == '!',
        ensures
            match r {
                Ok(token) => final(self).stepped(old(self), seq![token@]),
                Err(e) => scan(old(self).source(), old(self).pos as nat) == Err::<Scan, ErrorView>(e@),
            },
    {
        let follower = self.next();
        match follower {
            Some('=') => {
                self.next();
                Ok(self.make_token(TokenKind::Ne))
            },
            _ => Err(Error::UnexpectedCharacter(follower)),
        }
    }

    /// The token for a character that is a token by itself.
    fn symbol_kind(c: char) -> (kind: Option<TokenKind>)
        ensures
            kind == single_kind(c),
    {
        if c == '(' {
            Some(TokenKind::ParenL)
        } else if c == ')' {
            Some(TokenKind::ParenR)
        } else if c == '+' {
            Some(TokenKind::Plus)
        } else if c == '-' {
            Some(TokenKind::Minus)
        } else if c == ':' {
            Some(TokenKind::Colon)
        } else if c == ',' {
            Some(TokenKind::Comma)
        } else if c == '*' {
            Some(TokenKind::Mult)
        } else if c == '/' {
            Some(TokenKind::Div)
        } else if c == '%' {
            Some(TokenKind::Mod)
        } else {
            None
        }
    }

    /// Compares the column of a line's first character with the indentation
    /// stack, and appends the `Indent` or `Dedent` tokens that the
    /// difference calls for.
    fn lex_indentation(&mut self, tokens: &mut Vec<Token>) -> (r: Result<(), Error>)
        requires
            old(self).well_formed(),
            old(self).pos < old(self).chars.len(),
        ensures
            match r {
                Ok(()) => {
                    &&& final(self).well_formed()
                    &&& *final(self) == (Lexer { indent_stack: final(self).indent_stack, ..*old(self) })
                    &&& layout(old(self).chars[old(self).pos as int], old(self).state()) matches Ok(
                        (dents, indents),
                    )
                    &&& indents == final(self).state().indents
                    &&& token_views(final(tokens)@) == token_views(old(tokens)@) + dents
                },
                Err(e) => layout(old(self).chars[old(self).pos as int], old(self).state()) == Err::<
                    (Seq<TokenView>, Seq<nat>),
                    ErrorView,
                >(e@),
            },
    {
        let c = self.chars[self.pos];
        let ghost first = self.state().indents;
        let ghost emitted = token_views(tokens@);
        if self.seen_nonblank || c == ' ' || c == '\t' || c == '#' || c == '\n' {
            assert(token_views(tokens@) =~= emitted + Seq::<TokenView>::empty());
            return Ok(());
        }
        let top = self.indent_stack[self.indent_stack.len() - 1];
        if self.column == top {
            assert(token_views(tokens@) =~= emitted + Seq::<TokenView>::empty());
            Ok(())
        } else if self.column > top {
            let token = self.make_dent_token(TokenKind::Indent);
            proof {
                lemma_token_views_push(tokens@, token);
            }
            tokens.push(token);
            self.indent_stack.push(self.column);
            assert(self.state().indents =~= first.push(self.column as nat));
            assert(token_views(tokens@) =~= emitted + seq![dent(TokenKind::Indent, self.column as nat)]);
            Ok(())
        } else {
            while self.indent_stack[self.indent_stack.len() - 1] > self.column
                invariant
                    self.inside(),
                    *self == (Lexer { indent_stack: self.indent_stack, ..*old(self) }),
                    self.pos < self.chars.len(),
                    self.indent_stack.len() <= first.len(),
                    unwind(first, self.column as nat) == unwind(self.state().indents, self.column as nat),
                    token_views(tokens@) == emitted + Seq::new(
                        (first.len() - self.indent_stack.len()) as nat,
                        |i: int| dent(TokenKind::Dedent, self.column as nat),
                    ),
                decreases self.indent_stack.len(),
            {
                let ghost stack = self.state().indents;
                let ghost seen = token_views(tokens@);
                self.indent_stack.pop();
                assert(self.state().indents =~= stack.drop_last());
                let token = self.make_dent_token(TokenKind::Dedent);
                proof {
                    lemma_token_views_push(tokens@, token);
                }
                tokens.push(token);
                assert(token_views(tokens@) =~= emitted + Seq::new(
                    (first.len() - self.indent_stack.len()) as nat,
                    |i: int| dent(TokenKind::Dedent, self.column as nat),
                ));
            }
            if self.indent_stack[self.indent_stack.len() - 1] < self.column {
                Err(Error::UnmatchedIndentationLevel(self.column))
            } else {
                Ok(())
            }
        }
    }

    /// Reads the whole text and returns its tokens, or the first reason to
    /// reject it.
    pub fn lex(self) -> (r: Result<Vec<Token>, Error>)
        requires
            self.ready(),
        ensures
            lexed_view(r) == lex(self.source()),
    {
        let mut lexer = self;
        let mut tokens: Vec<Token> = Vec::new();
        let ghost source = self.source();
        assert(token_views(tokens@) =~= Seq::empty());
        assert(lex_from(source, lexer.state()) == preceded_by(
            token_views(tokens@),
            lex_from(source, lexer.state()),
        )) by {
            lemma_preceded_by_nothing(lex_from(source, lexer.state()));
        }
        while lexer.pos < lexer.chars.len()
            invariant
                lexer.well_formed(),
                lexer.source() == source,
                source == self.source(),
                lex(source) == preceded_by(token_views(tokens@), lex_from(source, lexer.state())),
            decreases lexer.chars.len() - lexer.pos,
        {
            let ghost before = lexer;
            let ghost emitted = token_views(tokens@);
            match lexer.lex_indentation(&mut tokens) {
                Err(e) => {
                    return Err(e);
                },
                Ok(()) => {},
            }
            let ghost middle = lexer;
            let ghost laid = token_views(tokens@);
            let c = lexer.chars[lexer.pos];
            let produced: Option<Token> = if 'a' <= c && c <= 'z' {
                Some(lexer.lex_identifier_or_keyword())
            } else if '0' <= c && c <= '9' {
                Some(lexer.lex_integer())
            } else if c == '#' {
                lexer.lex_comment();
                None
            } else if c == '\n' {
                Some(lexer.lex_newline())
            } else if c == '\\' {
                match lexer.lex_backslash() {
                    Ok(()) => None,
                    Err(e) => {
                        return Err(e);
                    },
                }
            } else if c == ' ' {
                lexer.lex_whitespace();
                None
            } else if c == '\t' {
                lexer.lex_tab();
                None
            } else if let Some(kind) = Self::symbol_kind(c) {
                Some(lexer.lex_symbol(kind))
            } else if c == '<' {
                match lexer.lex_lt() {
                    Ok(token) => Some(token),
                    Err(e) => {
                        return Err(e);
                    },
                }
            } else if c == '>' {
                match lexer.lex_gt() {
                    Ok(token) => Some(token),
                    Err(e) => {
                        return Err(e);
                    },
                }
            } else if c == '=' {
                match lexer.lex_equals() {
                    Ok(token) => Some(token),
                    Err(e) => {
                        return Err(e);
                    },
                }
            } else if c == '!' {
                match lexer.lex_ne() {
                    Ok(token) => Some(token),
                    Err(e) => {
                        return Err(e);
                    },
                }
            } else {
                return Err(Error::UnexpectedStartOfToken(c));
            };
            let ghost unit = if produced is Some {
                seq![produced->0@]
            } else {
                Seq::empty()
            };
            assert(lexer.stepped(&middle, unit));
            match produced {
                Some(token) => {
                    proof {
                        lemma_token_views_push(tokens@, token);
                    }
                    tokens.push(token);
                },
                None => {},
            }
            proof {
                lemma_scan_bounds(source, before.pos as nat);
                let dents = layout(c, before.state())->Ok_0.0;
                let rest = lex_from(source, lexer.state());
                assert(token_views(tokens@) =~= emitted + (dents + unit));
                lemma_preceded_by_both(emitted, dents + unit, rest);
            }
        }
        let mut open = lexer.indent_stack.len() - 1;
        let ghost emitted = token_views(tokens@);
        let ghost blocks = open;
        while open > 0
            invariant
                lexer.well_formed(),
                lexer.pos >= lexer.chars.len(),
                open <= blocks,
                token_views(tokens@) == emitted + Seq::new(
                    (blocks - open) as nat,
                    |i: int| TokenView { kind: TokenKind::Dedent, lexeme: Seq::empty() },
                ),
            decreases open,
        {
            let token = lexer.make_dent_token(TokenKind::Dedent);
            proof {
                lemma_token_views_push(tokens@, token);
            }
            tokens.push(token);
            open = open - 1;
            assert(token_views(tokens@) =~= emitted + Seq::new(
                (blocks - open) as nat,
                |i: int| TokenView { kind: TokenKind::Dedent, lexeme: Seq::empty() },
            ));
        }
        let token = lexer.make_token(TokenKind::Eof);
        proof {
            lemma_token_views_push(tokens@, token);
            assert(token@.lexeme =~= Seq::empty());
        }
        tokens.push(token);
        assert(token_views(tokens@) =~= emitted + closing_tokens(lexer.state().indents));
        Ok(tokens)
    }
}

/// Putting no tokens in front changes nothing.
pub proof fn lemma_preceded_by_nothing(rest: Result<Seq<TokenView>, ErrorView>)
    ensures
        preceded_by(Seq::empty(), rest) == rest,
{
    if let Ok(more) = rest {
        assert(Seq::<TokenView>::empty() + more =~= more);
    }
}

/// Putting `b` in front and then `a` is putting `a + b` in front.
pub proof fn lemma_preceded_by_both(
    a: Seq<TokenView>,
    b: Seq<TokenView>,
    rest: Result<Seq<TokenView>, ErrorView>,
)
    ensures
        preceded_by(a, preceded_by(b, rest)) == preceded_by(a + b, rest),
{
    if let Ok(more) = rest {
        assert(a + (b + more) =~= (a + b) + more);
    }
}

} // verus!
