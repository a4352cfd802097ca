//! Source units, locations and the reading head that turns a source unit
//! into located tokens.
use std::rc::Rc;
use vstd::prelude::*;
use vstd::string::StringExecFns;
use crate::text::{
    byte_len, count_newlines, is_ws, is_alpha, is_digit, is_binop, is_left, is_right,
    ascii_whitespace, ascii_alphabetic, ascii_digit, utf8_width, lemma_byte_len_step,
    lemma_byte_len_prefix, lemma_newlines_step, lemma_newlines_prefix,
};

verus! {

/// Relies on `str::chars`, collected into a vector: the characters of `s`, in order.
#[verifier::external_body]
pub(crate) fn chars_of(s: &str) -> (r: Vec<char>)
    ensures
        r@ == s@,
{
    s.chars().collect()
}

/// Relies on `String`'s `FromIterator<char>`: the string made of `cs`, in order.
#[verifier::external_body]
fn string_of(cs: &Vec<char>) -> (r: String)
    ensures
        r@ == cs@,
{
    cs.iter().collect()
}

/// Relies on `Rc::clone`: a new handle to the same value.
#[verifier::external_body]
fn share(scu: &Rc<SourceCodeUnit>) -> (r: Rc<SourceCodeUnit>)
    ensures
        r == *scu,
{
    Rc::clone(scu)
}

/// `s` with a `'\n'` appended unless it already ends with one.
pub open spec fn normalized(s: Seq<char>) -> Seq<char> {
    if s.len() > 0 && s.last() == '\n' {
        s
    } else {
        s.push('\n')
    }
}

/// Byte offset of the start of each line of `cs`: 0, then the offset just
/// past each `'\n'`.
pub open spec fn line_offsets_of(cs: Seq<char>) -> Seq<int>
    decreases cs.len(),
{
    if cs.len() == 0 {
        seq![0]
    } else {
        let p = line_offsets_of(cs.drop_last());
        if cs.last() == '\n' {
            p.push(byte_len(cs) as int)
        } else {
            p
        }
    }
}

pub proof fn lemma_line_offsets_shape(cs: Seq<char>)
    ensures
        line_offsets_of(cs).len() == 1 + count_newlines(cs),
        line_offsets_of(cs)[0] == 0,
        cs.len() > 0 && cs.last() == '\n' ==> line_offsets_of(cs).last() == byte_len(cs),
    decreases cs.len(),
{
    if cs.len() > 0 {
        lemma_line_offsets_shape(cs.drop_last());
    }
}

/// Byte offsets as integers.
pub open spec fn offsets_view(v: Seq<usize>) -> Seq<int> {
    v.map_values(|x: usize| x as int)
}

pub struct SourceView {
    pub name: Seq<char>,
    pub content: Seq<char>,
    pub line_offsets: Seq<int>,
}

/// An immutable, line-indexed piece of program text.
pub struct SourceCodeUnit {
    name: String,
    content: String,
    chars: Vec<char>,
    line_offsets: Vec<usize>,
}

impl View for SourceCodeUnit {
    type V = SourceView;

    closed spec fn view(&self) -> SourceView {
        SourceView {
            name: self.name@,
            content: self.content@,
            line_offsets: offsets_view(self.line_offsets@),
        }
    }
}

impl SourceCodeUnit {
    #[verifier::type_invariant]
    closed spec fn inv(&self) -> bool {
        &&& self.chars@ == self.content@
        &&& self.content@.len() > 0
        &&& self.content@.last() == '\n'
        &&& offsets_view(self.line_offsets@) == line_offsets_of(self.content@)
        &&& byte_len(self.content@) <= usize::MAX
        &&& count_newlines(self.content@) < usize::MAX
    }

    /// Builds a source unit from in-memory text, appending a final `'\n'`
    /// when the text lacks one.
    pub fn from_str(s: &str, name: String) -> (r: SourceCodeUnit)
        requires
            byte_len(s@) < usize::MAX,
        ensures
            r@.name == name@,
            r@.content == normalized(s@),
            r@.content.last() == '\n',
            r@.line_offsets == line_offsets_of(r@.content),
            r@.line_offsets.len() == 1 + count_newlines(r@.content),
            r@.line_offsets[0] == 0,
            r@.line_offsets.last() == byte_len(r@.content),
    {
        let mut chars = chars_of(s);
        let mut content = s.to_owned();
        let mut line_offsets: Vec<usize> = Vec::new();
        line_offsets.push(0);
        let mut b: usize = 0;
        let mut i: usize = 0;
        proof {
            assert(chars@.subrange(0, 0) =~= Seq::<char>::empty());
            assert(offsets_view(line_offsets@) =~= seq![0int]);
        }
        while i < chars.len()
            invariant
                chars@ == s@,
                content@ == s@,
                i <= chars@.len(),
                b as nat == byte_len(chars@.subrange(0, i as int)),
                offsets_view(line_offsets@) == line_offsets_of(
                    chars@.subrange(0, i as int),
                ),
                byte_len(s@) < usize::MAX,
            decreases chars.len() - i,
        {
            let c = chars[i];
            proof {
                lemma_byte_len_step(chars@, i as int);
                lemma_byte_len_prefix(chars@, i as int + 1);
                assert(chars@.subrange(0, i + 1).drop_last() =~= chars@.subrange(0, i as int));
            }
            b = b + utf8_width(c);
            if c == '\n' {
                line_offsets.push(b);
            }
            i = i + 1;
            assert(offsets_view(line_offsets@) =~= line_offsets_of(
                chars@.subrange(0, i as int),
            ));
        }
        proof {
            assert(chars@.subrange(0, i as int) =~= s@);
        }
        let n = chars.len();
        if n == 0 || chars[n - 1] != '\n' {
            proof {
                reveal_strlit("\n");
            }
            content.append("\n");
            chars.push('\n');
            proof {
                lemma_byte_len_step(chars@, n as int);
                assert(chars@.subrange(0, n as int) =~= s@);
                assert(chars@.subrange(0, n + 1) =~= chars@);
                assert(chars@.drop_last() =~= s@);
            }
            b = b + 1;
            line_offsets.push(b);
            assert(offsets_view(line_offsets@) =~= line_offsets_of(chars@));
            assert(content@ =~= chars@);
        }
        proof {
            assert(b as nat == byte_len(chars@));
            assert(chars@ =~= content@);
            lemma_line_offsets_shape(content@);
        }
        let n_lines = line_offsets.len();
        assert(offsets_view(line_offsets@).len() == n_lines);
        SourceCodeUnit { name, content, chars, line_offsets }
    }

    pub fn content(&self) -> (r: &str)
        ensures
            r@ == self@.content,
    {
        self.content.as_str()
    }

    pub fn line_offsets(&self) -> (r: &Vec<usize>)
        ensures
            offsets_view(r@) == self@.line_offsets,
    {
        &self.line_offsets
    }
}

pub struct LocView {
    pub source: Seq<char>,
    pub line_start: int,
    pub byte_start: int,
    pub byte_length: int,
}

/// The union of two spans: from the smaller start to the larger end, on
/// the smaller line.
pub open spec fn merge_view(a: LocView, b: LocView) -> LocView {
    let start = if a.byte_start <= b.byte_start { a.byte_start } else { b.byte_start };
    let a_end = a.byte_start + a.byte_length;
    let b_end = b.byte_start + b.byte_length;
    let end = if a_end >= b_end { a_end } else { b_end };
    LocView {
        source: a.source,
        line_start: if a.line_start <= b.line_start { a.line_start } else { b.line_start },
        byte_start: start,
        byte_length: end - start,
    }
}

/// A span of a source unit: its first line and its bytes.
pub struct Loc {
    scu: Rc<SourceCodeUnit>,
    line_start: usize,
    raw_index_start: usize,
    raw_length: usize,
}

impl View for Loc {
    type V = LocView;

    closed spec fn view(&self) -> LocView {
        LocView {
            source: self.scu@.content,
            line_start: self.line_start as int,
            byte_start: self.raw_index_start as int,
            byte_length: self.raw_length as int,
        }
    }
}

impl Loc {
    #[verifier::type_invariant]
    closed spec fn inv(&self) -> bool {
        &&& self.line_start >= 1
        &&& self.raw_index_start + self.raw_length <= byte_len(self.scu@.content)
    }

    pub fn line_start(&self) -> (r: usize)
        ensures
            r == self@.line_start,
    {
        self.line_start
    }

    pub fn byte_start(&self) -> (r: usize)
        ensures
            r == self@.byte_start,
    {
        self.raw_index_start
    }

    pub fn byte_length(&self) -> (r: usize)
        ensures
            r == self@.byte_length,
    {
        self.raw_length
    }

    /// The smallest span that covers both `self` and `other`.
    pub fn merge(&self, other: &Loc) -> (r: Loc)
        requires
            self@.source == other@.source,
        ensures
            r@ == merge_view(self@, other@),
    {
        proof {
            use_type_invariant(self);
            use_type_invariant(other);
            use_type_invariant(&*self.scu);
        }
        let start = if self.raw_index_start <= other.raw_index_start {
            self.raw_index_start
        } else {
            other.raw_index_start
        };
        let self_end = self.raw_index_start + self.raw_length;
        let other_end = other.raw_index_start + other.raw_length;
        let end = if self_end >= other_end { self_end } else { other_end };
        let line_start = if self.line_start <= other.line_start {
            self.line_start
        } else {
            other.line_start
        };
        Loc { scu: share(&self.scu), line_start, raw_index_start: start, raw_length: end - start }
    }
}

/// The merged span starts at the smaller start and covers both spans.
pub proof fn lemma_merge_covers(a: Loc, b: Loc)
    requires
        a@.source == b@.source,
    ensures
        merge_view(a@, b@).byte_start == if a@.byte_start <= b@.byte_start {
            a@.byte_start
        } else {
            b@.byte_start
        },
        merge_view(a@, b@).byte_start <= a@.byte_start,
        merge_view(a@, b@).byte_start <= b@.byte_start,
        a@.byte_start + a@.byte_length <= merge_view(a@, b@).byte_start + merge_view(
            a@,
            b@,
        ).byte_length,
        b@.byte_start + b@.byte_length <= merge_view(a@, b@).byte_start + merge_view(
            a@,
            b@,
        ).byte_length,
{
}

/// Merging does not depend on the order of its two arguments.
pub proof fn lemma_merge_commutative(a: Loc, b: Loc)
    requires
        a@.source == b@.source,
    ensures
        merge_view(a@, b@) == merge_view(b@, a@),
{
}

/// Merging three spans gives the same span whichever pair is merged first.
pub proof fn lemma_merge_associative(a: Loc, b: Loc, c: Loc)
    requires
        a@.source == b@.source,
        b@.source == c@.source,
    ensures
        merge_view(merge_view(a@, b@), c@) == merge_view(a@, merge_view(b@, c@)),
{
}

pub enum ParsingError {
    EofInComment { loc: Loc },
    UnexpectedCharacter { ch: char, loc: Loc },
}

pub enum Tok {
    Word(String),
    Integer(String),
    BinOp(String),
    Left(String),
    Right(String),
    Void,
}

pub enum TokView {
    Word(Seq<char>),
    Integer(Seq<char>),
    BinOp(Seq<char>),
    Left(Seq<char>),
    Right(Seq<char>),
    Void,
}

impl View for Tok {
    type V = TokView;

    open spec fn view(&self) -> TokView {
        match self {
            Tok::Word(s) => TokView::Word(s@),
            Tok::Integer(s) => TokView::Integer(s@),
            Tok::BinOp(s) => TokView::BinOp(s@),
            Tok::Left(s) => TokView::Left(s@),
            Tok::Right(s) => TokView::Right(s@),
            Tok::Void => TokView::Void,
        }
    }
}

impl Tok {
    pub fn is_void(&self) -> (r: bool)
        ensures
            r == (self@ is Void),
    {
        match self {
            Tok::Void => true,
            _ => false,
        }
    }
}

/// The span of the characters `a..b` of `cs`.
pub open spec fn span(cs: Seq<char>, a: int, b: int) -> LocView {
    LocView {
        source: cs,
        line_start: 1 + count_newlines(cs.subrange(0, a)) as int,
        byte_start: byte_len(cs.subrange(0, a)) as int,
        byte_length: byte_len(cs.subrange(0, b)) - byte_len(cs.subrange(0, a)),
    }
}

/// Where skipping whitespace and comments from position `i` of `cs` stops:
/// `Ok` with the position of the next significant character (or the end),
/// or `Err` with the position of a comment's opening `#` that the end of
/// input left open. `open` is the opening of the comment `i` is inside of.
pub open spec fn skip_from(cs: Seq<char>, i: int, open: Option<int>) -> Result<int, int>
    decreases cs.len() - i,
{
    if i >= cs.len() || i < 0 {
        match open {
            None => Ok(i),
            Some(k) => Err(k),
        }
    } else {
        let c = cs[i];
        match open {
            None => if c == '#' {
                skip_from(cs, i + 1, Some(i))
            } else if is_ws(c) {
                skip_from(cs, i + 1, None)
            } else {
                Ok(i)
            },
            Some(k) => if c == '#' {
                skip_from(cs, i + 1, None)
            } else {
                skip_from(cs, i + 1, Some(k))
            },
        }
    }
}

/// End of the maximal run of letters (or of digits) that starts at `i`.
pub open spec fn run_end(cs: Seq<char>, i: int, digits: bool) -> int
    decreases cs.len() - i,
{
    if 0 <= i < cs.len() && (if digits { is_digit(cs[i]) } else { is_alpha(cs[i]) }) {
        run_end(cs, i + 1, digits)
    } else {
        i
    }
}

/// The token that starts at the significant position `j` of `cs`, with the
/// position just past it; `None` for a character that starts no token.
pub open spec fn token_at(cs: Seq<char>, j: int) -> Option<(TokView, int)> {
    if j >= cs.len() {
        Some((TokView::Void, j))
    } else {
        let c = cs[j];
        if is_alpha(c) {
            let e = run_end(cs, j, false);
            Some((TokView::Word(cs.subrange(j, e)), e))
        } else if is_digit(c) {
            let e = run_end(cs, j, true);
            Some((TokView::Integer(cs.subrange(j, e)), e))
        } else if is_binop(c) {
            Some((TokView::BinOp(seq![c]), j + 1))
        } else if is_left(c) {
            Some((TokView::Left(seq![c]), j + 1))
        } else if is_right(c) {
            Some((TokView::Right(seq![c]), j + 1))
        } else {
            None
        }
    }
}

/// A cursor over a source unit that reads it token by token.
pub struct ReadingHead {
    scu: Rc<SourceCodeUnit>,
    raw_index: usize,
    line: usize,
    char_index: usize,
}

impl ReadingHead {
    /// The text being read.
    pub closed spec fn text(&self) -> Seq<char> {
        self.scu@.content
    }

    /// The position, in characters, of the next character to read.
    pub closed spec fn pos(&self) -> int {
        self.char_index as int
    }

    pub closed spec fn wf(&self) -> bool {
        let cs = self.scu@.content;
        &&& self.char_index <= cs.len()
        &&& self.raw_index == byte_len(cs.subrange(0, self.char_index as int))
        &&& self.line == 1 + count_newlines(cs.subrange(0, self.char_index as int))
        &&& byte_len(cs) <= usize::MAX
        &&& count_newlines(cs) < usize::MAX
    }

    proof fn lemma_bounds(&self)
        requires
            self.wf(),
        ensures
            byte_len(self.text()) <= usize::MAX,
            count_newlines(self.text()) < usize::MAX,
            self.text().len() <= byte_len(self.text()),
    {
        lemma_byte_len_prefix(self.text(), self.text().len() as int);
        assert(self.text().subrange(0, self.text().len() as int) =~= self.text());
    }

    pub fn from_scu(scu: Rc<SourceCodeUnit>) -> (r: ReadingHead)
        ensures
            r.wf(),
            r.text() == scu@.content,
            r.pos() == 0,
    {
        proof {
            use_type_invariant(&*scu);
            lemma_line_offsets_shape(scu@.content);
            assert(scu@.content.subrange(0, 0) =~= Seq::<char>::empty());
        }
        ReadingHead { scu, raw_index: 0, line: 1, char_index: 0 }
    }

    fn peek_cur_char(&self) -> (r: Option<char>)
        requires
            self.wf(),
        ensures
            r == if self.pos() < self.text().len() {
                Some(self.text()[self.pos()])
            } else {
                None
            },
    {
        proof {
            use_type_invariant(&*self.scu);
        }
        if self.char_index < self.scu.chars.len() {
            Some(self.scu.chars[self.char_index])
        } else {
            None
        }
    }

    fn goto_next_char(&mut self)
        requires
            old(self).wf(),
        ensures
            final(self).wf(),
            final(self).text() == old(self).text(),
            final(self).pos() == if old(self).pos() < old(self).text().len() {
                old(self).pos() + 1
            } else {
                old(self).pos()
            },
    {
        if let Some(ch) = self.peek_cur_char() {
            proof {
                let cs = self.text();
                let i = self.char_index as int;
                self.lemma_bounds();
                lemma_byte_len_step(cs, i);
                lemma_byte_len_prefix(cs, i + 1);
                lemma_newlines_step(cs, i);
                lemma_newlines_prefix(cs, i + 1);
            }
            self.raw_index = self.raw_index + utf8_width(ch);
            if ch == '\n' {
                self.line = self.line + 1;
            }
            self.char_index = self.char_index + 1;
        }
    }

    fn cur_char_loc(&self) -> (r: Loc)
        requires
            self.wf(),
        ensures
            r@ == span(
                self.text(),
                self.pos(),
                if self.pos() < self.text().len() {
                    self.pos() + 1
                } else {
                    self.pos()
                },
            ),
    {
        let raw_length = match self.peek_cur_char() {
            Some(ch) => utf8_width(ch),
            None => 0,
        };
        proof {
            let cs = self.text();
            let i = self.char_index as int;
            self.lemma_bounds();
            if i < cs.len() {
                lemma_byte_len_step(cs, i);
                lemma_byte_len_prefix(cs, i + 1);
            } else {
                assert(cs.subrange(0, i) =~= cs);
            }
        }
        Loc {
            scu: share(&self.scu),
            line_start: self.line,
            raw_index_start: self.raw_index,
            raw_length,
        }
    }
}

impl ReadingHead {
    /// Consumes whitespace and `#`-delimited comments.
    fn skip_ws(&mut self) -> (r: Result<(), ParsingError>)
        requires
            old(self).wf(),
        ensures
            final(self).wf(),
            final(self).text() == old(self).text(),
            match skip_from(old(self).text(), old(self).pos(), None) {
                Ok(j) => r is Ok && final(self).pos() == j,
                Err(k) => match r {
                    Err(ParsingError::EofInComment { loc }) => loc@ == span(
                        old(self).text(),
                        k,
                        k + 1,
                    ),
                    _ => false,
                },
            },
    {
        let ghost cs = self.text();
        let ghost p0 = self.pos();
        let ghost mut open: Option<int> = None;
        let mut comment: Option<Loc> = None;
        loop
            invariant
                self.wf(),
                self.text() == cs,
                0 <= self.pos() <= cs.len(),
                skip_from(cs, self.pos(), open) == skip_from(cs, p0, None),
                match open {
                    None => comment is None,
                    Some(k) => 0 <= k < cs.len() && match comment {
                        Some(l) => l@ == span(cs, k, k + 1),
                        None => false,
                    },
                },
            ensures
                self.wf(),
                self.text() == cs,
                skip_from(cs, self.pos(), open) == match open {
                    None => Ok(self.pos()),
                    Some(k) => Err(k),
                },
                match open {
                    None => comment is None,
                    Some(k) => 0 <= k < cs.len() && match comment {
                        Some(l) => l@ == span(cs, k, k + 1),
                        None => false,
                    },
                },
            decreases cs.len() - self.pos(),
        {
            match self.peek_cur_char() {
                None => {
                    break;
                },
                Some(ch) => {
                    if comment.is_none() {
                        if ch == '#' {
                            comment = Some(self.cur_char_loc());
                            proof {
                                open = Some(self.pos());
                            }
                        } else if !ascii_whitespace(ch) {
                            break;
                        }
                    } else if ch == '#' {
                        comment = None;
                        proof {
                            open = None;
                        }
                    }
                    self.goto_next_char();
                },
            }
        }
        match comment {
            Some(loc) => Err(ParsingError::EofInComment { loc }),
            None => Ok(()),
        }
    }

    /// Consumes the maximal run of letters (or digits) that starts at the
    /// current character.
    fn read_run(&mut self, digits: bool) -> (r: (String, Loc))
        requires
            old(self).wf(),
            old(self).pos() < old(self).text().len(),
        ensures
            final(self).wf(),
            final(self).text() == old(self).text(),
            final(self).pos() == run_end(old(self).text(), old(self).pos(), digits),
            r.0@ == old(self).text().subrange(old(self).pos(), final(self).pos()),
            r.1@ == span(old(self).text(), old(self).pos(), final(self).pos()),
    {
        let ghost cs = self.text();
        let ghost p0 = self.pos();
        let line_start = self.line;
        let start = self.raw_index;
        let mut run: Vec<char> = Vec::new();
        loop
            invariant
                self.wf(),
                self.text() == cs,
                0 <= p0 <= self.pos() <= cs.len(),
                run_end(cs, self.pos(), digits) == run_end(cs, p0, digits),
                run@ == cs.subrange(p0, self.pos()),
                start == byte_len(cs.subrange(0, p0)),
                line_start == 1 + count_newlines(cs.subrange(0, p0)),
            ensures
                self.wf(),
                self.text() == cs,
                p0 <= self.pos() <= cs.len(),
                run_end(cs, self.pos(), digits) == self.pos(),
                run_end(cs, self.pos(), digits) == run_end(cs, p0, digits),
                run@ == cs.subrange(p0, self.pos()),
                start == byte_len(cs.subrange(0, p0)),
                line_start == 1 + count_newlines(cs.subrange(0, p0)),
            decreases cs.len() - self.pos(),
        {
            match self.peek_cur_char() {
                Some(ch) => {
                    let in_run = if digits {
                        ascii_digit(ch)
                    } else {
                        ascii_alphabetic(ch)
                    };
                    if !in_run {
                        break;
                    }
                    let ghost q = self.pos();
                    assert(ch == cs[q]);
                    assert(0 <= p0 <= q < cs.len());
                    run.push(ch);
                    self.goto_next_char();
                    assert(self.pos() == q + 1);
                    assert(cs.subrange(p0, q + 1) =~= cs.subrange(p0, q).push(ch));
                },
                None => {
                    break;
                },
            }
        }
        proof {
            let q = self.pos();
            let pre = cs.subrange(0, q);
            lemma_byte_len_prefix(pre, p0);
            assert(pre.subrange(0, p0) =~= cs.subrange(0, p0));
            lemma_byte_len_prefix(cs, q);
        }
        let word = string_of(&run);
        let loc = Loc {
            scu: share(&self.scu),
            line_start,
            raw_index_start: start,
            raw_length: self.raw_index - start,
        };
        (word, loc)
    }

    fn read_cur_word(&mut self) -> (r: (String, Loc))
        requires
            old(self).wf(),
            old(self).pos() < old(self).text().len(),
        ensures
            final(self).wf(),
            final(self).text() == old(self).text(),
            final(self).pos() == run_end(old(self).text(), old(self).pos(), false),
            r.0@ == old(self).text().subrange(old(self).pos(), final(self).pos()),
            r.1@ == span(old(self).text(), old(self).pos(), final(self).pos()),
    {
        self.read_run(false)
    }

    fn read_cur_integer(&mut self) -> (r: (String, Loc))
        requires
            old(self).wf(),
            old(self).pos() < old(self).text().len(),
        ensures
            final(self).wf(),
            final(self).text() == old(self).text(),
            final(self).pos() == run_end(old(self).text(), old(self).pos(), true),
            r.0@ == old(self).text().subrange(old(self).pos(), final(self).pos()),
            r.1@ == span(old(self).text(), old(self).pos(), final(self).pos()),
    {
        self.read_run(true)
    }

    /// Reads one character as a token of its own.
    fn read_single(&mut self, ch: char) -> (r: (String, Loc))
        requires
            old(self).wf(),
            old(self).pos() < old(self).text().len(),
            old(self).text()[old(self).pos()] == ch,
        ensures
            final(self).wf(),
            final(self).text() == old(self).text(),
            final(self).pos() == old(self).pos() + 1,
            r.0@ == seq![ch],
            r.1@ == span(old(self).text(), old(self).pos(), old(self).pos() + 1),
    {
        let loc = self.cur_char_loc();
        self.goto_next_char();
        let mut one: Vec<char> = Vec::new();
        one.push(ch);
        assert(one@ =~= seq![ch]);
        (string_of(&one), loc)
    }

    /// Skips whitespace and comments, then reads the next token with its
    /// span; at the end of input the token is `Void`.
    pub fn read_cur_tok(&mut self) -> (r: Result<(Tok, Loc), ParsingError>)
        requires
            old(self).wf(),
        ensures
            final(self).wf(),
            final(self).text() == old(self).text(),
            match skip_from(old(self).text(), old(self).pos(), None) {
                Err(k) => match r {
                    Err(ParsingError::EofInComment { loc }) => loc@ == span(
                        old(self).text(),
                        k,
                        k + 1,
                    ),
                    _ => false,
                },
                Ok(j) => match token_at(old(self).text(), j) {
                    Some((t, e)) => match r {
                        Ok((tok, loc)) => tok@ == t && loc@ == span(old(self).text(), j, e)
                            && final(self).pos() == e,
                        _ => false,
                    },
                    None => match r {
                        Err(ParsingError::UnexpectedCharacter { ch, loc }) => j < old(
                            self,
                        ).text().len() && ch == old(self).text()[j] && loc@ == span(
                            old(self).text(),
                            j,
                            j + 1,
                        ),
                        _ => false,
                    },
                },
            },
    {
        self.skip_ws()?;
        match self.peek_cur_char() {
            Some(ch) => {
                if ascii_alphabetic(ch) {
                    let (word, loc) = self.read_cur_word();
                    Ok((Tok::Word(word), loc))
                } else if ascii_digit(ch) {
                    let (integer, loc) = self.read_cur_integer();
                    Ok((Tok::Integer(integer), loc))
                } else if ch == '+' || ch == '-' || ch == '*' || ch == '/' {
                    let (op, loc) = self.read_single(ch);
                    Ok((Tok::BinOp(op), loc))
                } else if ch == '(' || ch == '[' || ch == '{' {
                    let (op, loc) = self.read_single(ch);
                    Ok((Tok::Left(op), loc))
                } else if ch == ')' || ch == ']' || ch == '}' {
                    let (op, loc) = self.read_single(ch);
                    Ok((Tok::Right(op), loc))
                } else {
                    Err(ParsingError::UnexpectedCharacter { ch, loc: self.cur_char_loc() })
                }
            },
            None => Ok((Tok::Void, self.cur_char_loc())),
        }
    }
}

/// The decimal digits of `n`, most significant first, without leading zeros.
pub open spec fn decimal_digits(n: nat) -> Seq<char>
    decreases n,
{
    let digit = seq!['0', '1', '2', '3', '4', '5', '6', '7', '8', '9'][(n % 10) as int];
    if n < 10 {
        seq![digit]
    } else {
        decimal_digits(n / 10).push(digit)
    }
}

/// Relies on `usize`'s `ToString`: its decimal representation.
#[verifier::external_body]
fn decimal_string(n: usize) -> (r: String)
    ensures
        r@ == decimal_digits(n as nat),
{
    n.to_string()
}

impl ParsingError {
    /// The location the error points at.
    pub fn loc(&self) -> (r: &Loc)
        ensures
            r@ == match self {
                ParsingError::EofInComment { loc } => loc@,
                ParsingError::UnexpectedCharacter { loc, .. } => loc@,
            },
    {
        match self {
            ParsingError::EofInComment { loc } => loc,
            ParsingError::UnexpectedCharacter { loc, .. } => loc,
        }
    }

    /// A one-line description of the error, with its line number and, for
    /// an unexpected character, the character.
    pub fn message(&self) -> (r: String)
        ensures
            r@ == match self {
                ParsingError::EofInComment { loc } => "end-of-file in comment started at line "@
                    + decimal_digits(loc@.line_start as nat),
                ParsingError::UnexpectedCharacter { ch, loc } => "unexpected character `"@
                    + seq![*ch] + "` at line "@ + decimal_digits(loc@.line_start as nat),
            },
    {
        match self {
            ParsingError::EofInComment { loc } => {
                let m = String::from_str("end-of-file in comment started at line ");
                let line = decimal_string(loc.line_start());
                m.concat(line.as_str())
            },
            ParsingError::UnexpectedCharacter { ch, loc } => {
                let m = String::from_str("unexpected character `");
                let mut one: Vec<char> = Vec::new();
                one.push(*ch);
                assert(one@ =~= seq![*ch]);
                let shown = string_of(&one);
                let m = m.concat(shown.as_str());
                let m = m.concat("` at line ");
                let line = decimal_string(loc.line_start());
                m.concat(line.as_str())
            },
        }
    }
}

} // verus!
