//! The stateful lexer.
//!
//! The lexer turns the input into a sequence of `(kind, text)` tokens that
//! covers every character. A token's kind depends on the current line
//! region: the first token of a line decides whether the line is a header,
//! a body line (two-space indent) or a footer line (one-space indent), and a
//! newline resets the region.
//!
//! The whole token function is also written as a specification,
//! [`next_token_spec`] and [`lex_spec`], and the executable lexer is proved
//! to produce exactly that token sequence.

use vstd::prelude::*;
use vstd::string::StrSliceExecFns;

use crate::is_leaf_kind;
use crate::SyntaxKind;

verus! {

/// Which kind of line the lexer is currently inside.
#[derive(Clone, Copy, Debug, PartialEq, Eq, Hash, Structural)]
pub enum LineType {
    Header,
    Body,
    Footer,
}

pub open spec fn is_whitespace_char(c: char) -> bool {
    c == ' ' || c == '\t'
}

pub open spec fn is_newline_char(c: char) -> bool {
    c == '\n' || c == '\r'
}

pub open spec fn is_identifier_char(c: char) -> bool {
    ||| 97 <= c as u32 <= 122
    ||| 65 <= c as u32 <= 90
    ||| 48 <= c as u32 <= 57
    ||| c == '-'
    ||| c == '.'
}

/// The character sets the lexer scans runs of.
#[derive(Clone, Copy, Debug, PartialEq, Eq, Hash, Structural)]
pub enum CharClass {
    /// A single space, for indents.
    Space,
    /// Space or tab.
    Whitespace,
    /// Package and distribution names, metadata keys and values.
    Identifier,
    /// Dash runs in a footer.
    Dash,
    /// Anything up to the end of the line.
    NotNewline,
    /// The inside of a version: stops at `)`, `;`, space or newline.
    VersionBody,
    /// The inside of an email: stops at `>`, space or newline.
    EmailBody,
    /// Footer prose: stops at `<` or newline.
    TextBody,
}

pub open spec fn char_in_class(cls: CharClass, c: char) -> bool {
    match cls {
        CharClass::Space => c == ' ',
        CharClass::Whitespace => is_whitespace_char(c),
        CharClass::Identifier => is_identifier_char(c),
        CharClass::Dash => c == '-',
        CharClass::NotNewline => !is_newline_char(c),
        CharClass::VersionBody => c != ')' && c != ';' && c != ' ' && !is_newline_char(c),
        CharClass::EmailBody => c != '>' && c != ' ' && !is_newline_char(c),
        CharClass::TextBody => c != '<' && !is_newline_char(c),
    }
}

/// The first index at or after `i` whose character falls outside `cls`.
pub open spec fn run_end(s: Seq<char>, i: int, cls: CharClass) -> int
    decreases s.len() - i,
{
    if i < 0 || i >= s.len() || !char_in_class(cls, s[i]) {
        i
    } else {
        run_end(s, i + 1, cls)
    }
}

/// Like [`run_end`], but scanning at most `n` characters.
pub open spec fn run_end_capped(s: Seq<char>, i: int, n: int, cls: CharClass) -> int
    decreases n,
{
    if n <= 0 || i < 0 || i >= s.len() || !char_in_class(cls, s[i]) {
        i
    } else {
        run_end_capped(s, i + 1, n - 1, cls)
    }
}

pub proof fn lemma_run_end(s: Seq<char>, i: int, cls: CharClass)
    requires
        0 <= i <= s.len(),
    ensures
        i <= run_end(s, i, cls) <= s.len(),
        i < s.len() && char_in_class(cls, s[i]) ==> i + 1 <= run_end(s, i, cls),
    decreases s.len() - i,
{
    if i < s.len() && char_in_class(cls, s[i]) {
        lemma_run_end(s, i + 1, cls);
    }
}

pub proof fn lemma_run_end_capped(s: Seq<char>, i: int, n: int, cls: CharClass)
    requires
        0 <= i <= s.len(),
        0 <= n,
    ensures
        i <= run_end_capped(s, i, n, cls) <= s.len(),
        run_end_capped(s, i, n, cls) - i <= n,
    decreases n,
{
    if n > 0 && i < s.len() && char_in_class(cls, s[i]) {
        lemma_run_end_capped(s, i + 1, n - 1, cls);
    }
}

/// Strip trailing whitespace: the least `e` with `lo <= e <= hi` such that
/// `s[lo..e]` ends in a non-blank character or is empty.
pub open spec fn trim_ws_end(s: Seq<char>, lo: int, hi: int) -> int
    decreases hi - lo,
{
    if hi <= lo || hi - 1 < 0 || hi - 1 >= s.len() || !is_whitespace_char(s[hi - 1]) {
        hi
    } else {
        trim_ws_end(s, lo, hi - 1)
    }
}

pub proof fn lemma_trim_ws_end(s: Seq<char>, lo: int, hi: int)
    requires
        0 <= lo <= hi <= s.len(),
    ensures
        lo <= trim_ws_end(s, lo, hi) <= hi,
    decreases hi - lo,
{
    if hi > lo && 0 <= hi - 1 < s.len() && is_whitespace_char(s[hi - 1]) {
        lemma_trim_ws_end(s, lo, hi - 1);
    }
}

/// Trimming cannot reach back to `lo` itself when `s[lo]` is not blank.
pub proof fn lemma_trim_ws_end_above(s: Seq<char>, lo: int, hi: int)
    requires
        0 <= lo < hi <= s.len(),
        !is_whitespace_char(s[lo]),
    ensures
        lo + 1 <= trim_ws_end(s, lo, hi),
    decreases hi - lo,
{
    if hi > lo + 1 && is_whitespace_char(s[hi - 1]) {
        lemma_trim_ws_end_above(s, lo, hi - 1);
    }
}

/// One step of the lexer: at position `i` in region `lt`, the kind of the
/// next token, the position just past it, and the region afterwards.
///
/// The arms are tried in order; the final arm turns any unrecognized
/// character into a single-character error token, so the lexer always makes
/// progress.
pub open spec fn next_token_spec(s: Seq<char>, i: int, lt: Option<LineType>) -> (SyntaxKind, int, Option<
    LineType,
>) {
    let c = s[i];
    if is_identifier_char(c) && (lt is None || lt == Some(LineType::Header)) {
        (SyntaxKind::Identifier, run_end(s, i, CharClass::Identifier), Some(LineType::Header))
    } else if lt is None && is_whitespace_char(c) {
        // An indent of at most two spaces; two means a body line, one a
        // footer line. A tab gives an empty space run and is an error.
        let e = run_end_capped(s, i, 2, CharClass::Space);
        if e == i {
            (SyntaxKind::Error, i + 1, None)
        } else if e == i + 2 {
            (SyntaxKind::Indent, e, Some(LineType::Body))
        } else {
            (SyntaxKind::Indent, e, Some(LineType::Footer))
        }
    } else if lt is None && c == '#' {
        // A comment line, the trailing newline included.
        let e = run_end(s, i, CharClass::NotNewline);
        (SyntaxKind::Comment, if e < s.len() { e + 1 } else { e }, None)
    } else if is_newline_char(c) {
        (SyntaxKind::Newline, i + 1, None)
    } else if c == ';' && lt == Some(LineType::Header) {
        (SyntaxKind::Semicolon, i + 1, lt)
    } else if c == '(' && lt == Some(LineType::Header) {
        // A version: everything up to `)`, `;`, space or newline. Only a
        // version closed by `)` is one; otherwise the stopping character is
        // folded into an error token.
        let e = run_end(s, i, CharClass::VersionBody);
        if e < s.len() && s[e] == ')' {
            (SyntaxKind::Version, e + 1, lt)
        } else if e < s.len() {
            (SyntaxKind::Error, e + 1, lt)
        } else {
            (SyntaxKind::Error, e, lt)
        }
    } else if c == '=' && lt == Some(LineType::Header) {
        (SyntaxKind::Equals, i + 1, lt)
    } else if lt == Some(LineType::Body) {
        (SyntaxKind::Detail, run_end(s, i, CharClass::NotNewline), lt)
    } else if is_whitespace_char(c) {
        (SyntaxKind::Whitespace, run_end(s, i, CharClass::Whitespace), lt)
    } else if c == '-' && lt == Some(LineType::Footer) {
        (SyntaxKind::Dashes, run_end(s, i, CharClass::Dash), lt)
    } else if c == '<' && lt == Some(LineType::Footer) {
        let e = run_end(s, i, CharClass::EmailBody);
        if e < s.len() && s[e] == '>' {
            (SyntaxKind::Email, e + 1, lt)
        } else if e < s.len() {
            (SyntaxKind::Error, e + 1, lt)
        } else {
            (SyntaxKind::Error, e, lt)
        }
    } else if lt == Some(LineType::Footer) {
        // Footer prose: up to `<` or the end of the line, trailing blanks
        // left for a whitespace token of their own.
        (SyntaxKind::Text, trim_ws_end(s, i, run_end(s, i, CharClass::TextBody)), lt)
    } else {
        (SyntaxKind::Error, i + 1, lt)
    }
}

/// Every step consumes at least one character and emits a lexical kind.
pub proof fn lemma_next_token_progress(s: Seq<char>, i: int, lt: Option<LineType>)
    requires
        0 <= i < s.len(),
    ensures
        ({
            let (k, e, lt2) = next_token_spec(s, i, lt);
            i < e <= s.len() && is_leaf_kind(k)
        }),
{
    lemma_run_end(s, i, CharClass::Identifier);
    lemma_run_end(s, i, CharClass::NotNewline);
    lemma_run_end(s, i, CharClass::VersionBody);
    lemma_run_end(s, i, CharClass::Whitespace);
    lemma_run_end(s, i, CharClass::Dash);
    lemma_run_end(s, i, CharClass::EmailBody);
    lemma_run_end(s, i, CharClass::TextBody);
    lemma_run_end_capped(s, i, 2, CharClass::Space);
    lemma_trim_ws_end(s, i, run_end(s, i, CharClass::TextBody));
    if !is_whitespace_char(s[i]) && i < run_end(s, i, CharClass::TextBody) {
        lemma_trim_ws_end_above(s, i, run_end(s, i, CharClass::TextBody));
    }
}

/// The token stream from position `i` in region `lt` to the end of `s`.
pub open spec fn lex_spec_from(s: Seq<char>, i: int, lt: Option<LineType>) -> Seq<(SyntaxKind, Seq<
    char,
>)>
    decreases s.len() - i,
{
    if i < 0 || i >= s.len() {
        Seq::empty()
    } else {
        let (k, e, lt2) = next_token_spec(s, i, lt);
        if i < e <= s.len() {
            seq![(k, s.subrange(i, e))] + lex_spec_from(s, e, lt2)
        } else {
            Seq::empty()
        }
    }
}

/// The full token stream of `s`: what [`lex`] returns.
pub open spec fn lex_spec(s: Seq<char>) -> Seq<(SyntaxKind, Seq<char>)> {
    lex_spec_from(s, 0, None)
}

/// The concatenated text of a token stream.
pub open spec fn token_texts(ts: Seq<(SyntaxKind, Seq<char>)>) -> Seq<char>
    decreases ts.len(),
{
    if ts.len() == 0 {
        Seq::empty()
    } else {
        ts.first().1 + token_texts(ts.drop_first())
    }
}

pub proof fn lemma_token_texts_push(ts: Seq<(SyntaxKind, Seq<char>)>, t: (SyntaxKind, Seq<char>))
    ensures
        token_texts(ts.push(t)) == token_texts(ts) + t.1,
    decreases ts.len(),
{
    if ts.len() == 0 {
        assert(ts.push(t).drop_first() =~= ts);
        assert(token_texts(ts.push(t)) =~= t.1);
        assert(token_texts(ts) + t.1 =~= t.1);
    } else {
        assert(ts.push(t).drop_first() =~= ts.drop_first().push(t));
        lemma_token_texts_push(ts.drop_first(), t);
        assert(token_texts(ts.push(t)) =~= token_texts(ts) + t.1);
    }
}

/// The lexer consumes the whole input: the token texts concatenate back to
/// the text being lexed.
pub proof fn lemma_lex_spec_covers(s: Seq<char>, i: int, lt: Option<LineType>)
    requires
        0 <= i <= s.len(),
    ensures
        token_texts(lex_spec_from(s, i, lt)) == s.subrange(i, s.len() as int),
    decreases s.len() - i,
{
    if i >= s.len() {
        assert(s.subrange(i, s.len() as int) =~= Seq::empty());
    } else {
        let (k, e, lt2) = next_token_spec(s, i, lt);
        lemma_next_token_progress(s, i, lt);
        lemma_lex_spec_covers(s, e, lt2);
        let ts = lex_spec_from(s, i, lt);
        assert(ts.first() == (k, s.subrange(i, e)));
        assert(ts.drop_first() =~= lex_spec_from(s, e, lt2));
        assert(s.subrange(i, e) + s.subrange(e, s.len() as int) =~= s.subrange(
            i,
            s.len() as int,
        ));
    }
}

/// The view of an executable token vector.
pub open spec fn toks_model(ts: Seq<(SyntaxKind, String)>) -> Seq<(SyntaxKind, Seq<char>)> {
    ts.map_values(|t: (SyntaxKind, String)| (t.0, t.1@))
}

/// A one-shot lexer over a borrowed input.
pub struct Lexer<'a> {
    input: &'a str,
    len: usize,
    pos: usize,
    line_type: Option<LineType>,
}

impl<'a> Lexer<'a> {
    pub closed spec fn text(self) -> Seq<char> {
        self.input@
    }

    pub closed spec fn pos_spec(self) -> int {
        self.pos as int
    }

    pub closed spec fn region(self) -> Option<LineType> {
        self.line_type
    }

    pub closed spec fn wf(self) -> bool {
        self.pos <= self.len && self.len as int == self.input@.len()
    }

    pub fn new(input: &'a str) -> (l: Lexer<'a>)
        ensures
            l.wf(),
            l.text() == input@,
            l.pos_spec() == 0,
            l.region() is None,
    {
        Lexer { input, len: input.unicode_len(), pos: 0, line_type: None }
    }

    /// Does `c` fall in `cls`?
    fn check_class(cls: CharClass, c: char) -> (b: bool)
        ensures
            b == char_in_class(cls, c),
    {
        match cls {
            CharClass::Space => c == ' ',
            CharClass::Whitespace => c == ' ' || c == '\t',
            CharClass::Identifier => {
                let u = c as u32;
                (97 <= u && u <= 122) || (65 <= u && u <= 90) || (48 <= u && u <= 57) || c == '-'
                    || c == '.'
            },
            CharClass::Dash => c == '-',
            CharClass::NotNewline => !(c == '\n' || c == '\r'),
            CharClass::VersionBody => c != ')' && c != ';' && c != ' ' && !(c == '\n' || c == '\r'),
            CharClass::EmailBody => c != '>' && c != ' ' && !(c == '\n' || c == '\r'),
            CharClass::TextBody => c != '<' && !(c == '\n' || c == '\r'),
        }
    }

    /// Scan the run of `cls` characters that starts at `start`.
    #[verifier::loop_isolation(false)]
    fn scan_run(&self, start: usize, cls: CharClass) -> (e: usize)
        requires
            self.wf(),
            start <= self.text().len(),
        ensures
            e as int == run_end(self.text(), start as int, cls),
            start <= e <= self.text().len(),
    {
        let mut j = start;
        while j < self.len && Self::check_class(cls, self.input.get_char(j))
            invariant
                self.wf(),
                start <= j <= self.len,
                run_end(self.text(), start as int, cls) == run_end(self.text(), j as int, cls),
            decreases self.len - j,
        {
            j = j + 1;
        }
        j
    }

    /// Scan like [`Self::scan_run`], but over at most `cap` characters.
    #[verifier::loop_isolation(false)]
    fn scan_run_capped(&self, start: usize, cap: usize, cls: CharClass) -> (e: usize)
        requires
            self.wf(),
            start <= self.text().len(),
        ensures
            e as int == run_end_capped(self.text(), start as int, cap as int, cls),
            start <= e <= self.text().len(),
            e - start <= cap,
    {
        let mut j = start;
        let mut left = cap;
        while left > 0 && j < self.len && Self::check_class(cls, self.input.get_char(j))
            invariant
                self.wf(),
                start <= j <= self.len,
                j - start + left == cap,
                run_end_capped(self.text(), start as int, cap as int, cls) == run_end_capped(
                    self.text(),
                    j as int,
                    left as int,
                    cls,
                ),
            decreases left,
        {
            j = j + 1;
            left = left - 1;
        }
        j
    }

    /// Walk back over trailing whitespace, not below `lo`.
    #[verifier::loop_isolation(false)]
    fn scan_trim_ws(&self, lo: usize, hi: usize) -> (e: usize)
        requires
            self.wf(),
            lo <= hi <= self.text().len(),
        ensures
            e as int == trim_ws_end(self.text(), lo as int, hi as int),
            lo <= e <= hi,
    {
        let mut j = hi;
        while j > lo && Self::check_class(CharClass::Whitespace, self.input.get_char(j - 1))
            invariant
                self.wf(),
                lo <= j <= hi,
                trim_ws_end(self.text(), lo as int, hi as int) == trim_ws_end(
                    self.text(),
                    lo as int,
                    j as int,
                ),
            decreases j,
        {
            j = j - 1;
        }
        j
    }

    /// Take the token text `[start, e)` and move past it.
    fn take(&mut self, start: usize, e: usize, kind: SyntaxKind, lt: Option<LineType>) -> (t: (
        SyntaxKind,
        String,
    ))
        requires
            old(self).wf(),
            start <= e <= old(self).text().len(),
        ensures
            final(self).wf(),
            final(self).text() == old(self).text(),
            final(self).pos_spec() == e as int,
            final(self).region() == lt,
            t.0 == kind,
            t.1@ == old(self).text().subrange(start as int, e as int),
    {
        let text = self.input.substring_char(start, e).to_owned();
        self.pos = e;
        self.line_type = lt;
        (kind, text)
    }

    /// The next token, or nothing at the end of the input. Every call either
    /// consumes at least one character or reports the end.
    #[verifier::loop_isolation(false)]
    pub fn next_token(&mut self) -> (r: Option<(SyntaxKind, String)>)
        requires
            old(self).wf(),
        ensures
            final(self).wf(),
            final(self).text() == old(self).text(),
            ({
                let s = old(self).text();
                let i = old(self).pos_spec();
                if i < s.len() {
                    let (k, e, lt2) = next_token_spec(s, i, old(self).region());
                    &&& r matches Some(t) && t.0 == k && t.1@ == s.subrange(i, e)
                    &&& final(self).pos_spec() == e
                    &&& final(self).region() == lt2
                } else {
                    r is None && final(self).pos_spec() == i && final(self).region() == old(
                        self,
                    ).region()
                }
            }),
    {
        if self.pos >= self.len {
            return None;
        }
        let ghost s = self.text();
        let ghost i0 = self.pos_spec();
        proof {
            lemma_next_token_progress(s, i0, self.line_type);
        }
        let i = self.pos;
        let c = self.input.get_char(i);
        let lt = self.line_type;
        let at_line_start = matches!(lt, Option::None);
        let in_header = matches!(lt, Option::Some(LineType::Header));
        let in_body = matches!(lt, Option::Some(LineType::Body));
        let in_footer = matches!(lt, Option::Some(LineType::Footer));
        if Self::check_class(CharClass::Identifier, c) && (at_line_start || in_header) {
            let e = self.scan_run(i, CharClass::Identifier);
            Some(self.take(i, e, SyntaxKind::Identifier, Some(LineType::Header)))
        } else if at_line_start && (c == ' ' || c == '\t') {
            let e = self.scan_run_capped(i, 2, CharClass::Space);
            if e == i {
                Some(self.take(i, i + 1, SyntaxKind::Error, None))
            } else if e - i == 2 {
                Some(self.take(i, e, SyntaxKind::Indent, Some(LineType::Body)))
            } else {
                Some(self.take(i, e, SyntaxKind::Indent, Some(LineType::Footer)))
            }
        } else if at_line_start && c == '#' {
            let e = self.scan_run(i, CharClass::NotNewline);
            if e < self.len {
                Some(self.take(i, e + 1, SyntaxKind::Comment, None))
            } else {
                Some(self.take(i, e, SyntaxKind::Comment, None))
            }
        } else if c == '\n' || c == '\r' {
            Some(self.take(i, i + 1, SyntaxKind::Newline, None))
        } else if c == ';' && in_header {
            Some(self.take(i, i + 1, SyntaxKind::Semicolon, lt))
        } else if c == '(' && in_header {
            let e = self.scan_run(i, CharClass::VersionBody);
            if e < self.len {
                if self.input.get_char(e) == ')' {
                    Some(self.take(i, e + 1, SyntaxKind::Version, lt))
                } else {
                    Some(self.take(i, e + 1, SyntaxKind::Error, lt))
                }
            } else {
                Some(self.take(i, e, SyntaxKind::Error, lt))
            }
        } else if c == '=' && in_header {
            Some(self.take(i, i + 1, SyntaxKind::Equals, lt))
        } else if in_body {
            let e = self.scan_run(i, CharClass::NotNewline);
            Some(self.take(i, e, SyntaxKind::Detail, lt))
        } else if c == ' ' || c == '\t' {
            let e = self.scan_run(i, CharClass::Whitespace);
            Some(self.take(i, e, SyntaxKind::Whitespace, lt))
        } else if c == '-' && in_footer {
            let e = self.scan_run(i, CharClass::Dash);
            Some(self.take(i, e, SyntaxKind::Dashes, lt))
        } else if c == '<' && in_footer {
            let e = self.scan_run(i, CharClass::EmailBody);
            if e < self.len {
                if self.input.get_char(e) == '>' {
                    Some(self.take(i, e + 1, SyntaxKind::Email, lt))
                } else {
                    Some(self.take(i, e + 1, SyntaxKind::Error, lt))
                }
            } else {
                Some(self.take(i, e, SyntaxKind::Error, lt))
            }
        } else if in_footer {
            let stop = self.scan_run(i, CharClass::TextBody);
            let e = self.scan_trim_ws(i, stop);
            Some(self.take(i, e, SyntaxKind::Text, lt))
        } else {
            Some(self.take(i, i + 1, SyntaxKind::Error, lt))
        }
    }
}

/// Lex the whole input. The tokens are exactly [`lex_spec`] of the text;
/// in particular they concatenate back to the input, every token is
/// non-empty, and every kind is a lexical kind.
pub fn lex(input: &str) -> (r: Vec<(SyntaxKind, String)>)
    ensures
        toks_model(r@) == lex_spec(input@),
        token_texts(toks_model(r@)) == input@,
        forall|j: int|
            0 <= j < r@.len() ==> is_leaf_kind(#[trigger] r@[j].0) && r@[j].1@.len() > 0,
{
    let mut lx = Lexer::new(input);
    let mut out: Vec<(SyntaxKind, String)> = Vec::new();
    loop
        invariant
            lx.wf(),
            lx.text() == input@,
            lex_spec(input@) =~= toks_model(out@) + lex_spec_from(
                input@,
                lx.pos_spec(),
                lx.region(),
            ),
            token_texts(toks_model(out@)) == input@.subrange(0, lx.pos_spec()),
            forall|j: int|
                0 <= j < out@.len() ==> is_leaf_kind(#[trigger] out@[j].0) && out@[j].1@.len() > 0,
        ensures
            lx.text() == input@,
            lx.pos_spec() == input@.len(),
            lex_spec(input@) =~= toks_model(out@) + lex_spec_from(
                input@,
                lx.pos_spec(),
                lx.region(),
            ),
            token_texts(toks_model(out@)) == input@.subrange(0, lx.pos_spec()),
            forall|j: int|
                0 <= j < out@.len() ==> is_leaf_kind(#[trigger] out@[j].0) && out@[j].1@.len() > 0,
        decreases input@.len() - lx.pos_spec(),
    {
        let ghost i0 = lx.pos_spec();
        let ghost lt0 = lx.region();
        match lx.next_token() {
            None => {
                break;
            },
            Some(t) => {
                proof {
                    lemma_next_token_progress(input@, i0, lt0);
                    let (k, e, lt2) = next_token_spec(input@, i0, lt0);
                    lemma_token_texts_push(toks_model(out@), (t.0, t.1@));
                    assert(toks_model(out@.push(t)) =~= toks_model(out@).push((t.0, t.1@)));
                    assert(lex_spec_from(input@, i0, lt0) =~= seq![(k, input@.subrange(i0, e))]
                        + lex_spec_from(input@, e, lt2));
                    assert(toks_model(out@).push((t.0, t.1@)) + lex_spec_from(input@, e, lt2)
                        =~= toks_model(out@) + lex_spec_from(input@, i0, lt0));
                    assert(input@.subrange(0, i0) + input@.subrange(i0, e) =~= input@.subrange(
                        0,
                        e,
                    ));
                }
                out.push(t);
            },
        }
    }
    proof {
        assert(toks_model(out@) + lex_spec_from(input@, lx.pos_spec(), lx.region())
            =~= toks_model(out@));
        assert(input@.subrange(0, input@.len() as int) =~= input@);
    }
    out
}

} // verus!
